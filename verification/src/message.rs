//! What failures say to people.

use astrodyn_frame_doc::DocError;
use vstd::prelude::*;
use crate::frame_doc::ApplyError;
use crate::scene_doc::SceneError;

verus! {

/// The character of a decimal digit.
pub open spec fn digit(d: nat) -> char {
    (0x30 + d) as char
}

/// A number in decimal.
pub open spec fn decimal(n: nat) -> Seq<char>
    decreases n,
{
    if n < 10 {
        seq![digit(n)]
    } else {
        decimal(n / 10).push(digit(n % 10))
    }
}

/// The text of a decimal digit.
fn digit_text(d: usize) -> (r: &'static str)
    requires
        d < 10,
    ensures
        r@ == seq![digit(d as nat)],
{
    proof {
        reveal_strlit("0");
        reveal_strlit("1");
        reveal_strlit("2");
        reveal_strlit("3");
        reveal_strlit("4");
        reveal_strlit("5");
        reveal_strlit("6");
        reveal_strlit("7");
        reveal_strlit("8");
        reveal_strlit("9");
    }
    let r: &'static str = match d {
        0 => "0",
        1 => "1",
        2 => "2",
        3 => "3",
        4 => "4",
        5 => "5",
        6 => "6",
        7 => "7",
        8 => "8",
        _ => "9",
    };
    assert(r@ =~= seq![digit(d as nat)]);
    r
}

/// A number in decimal.
fn number(n: usize) -> (r: String)
    ensures
        r@ == decimal(n as nat),
    decreases n,
{
    if n < 10 {
        digit_text(n).to_owned()
    } else {
        let mut r: String = number(n / 10);
        r.append(digit_text(n % 10));
        assert(r@ =~= decimal(n as nat / 10).push(digit(n as nat % 10)));
        r
    }
}

/// What a document's own failure says.
pub uninterp spec fn doc_error_display(e: DocError) -> Seq<char>;

/// `Display` of `astrodyn_frame_doc::DocError`: the text that says what was wrong, a function of
/// the failure.
#[verifier::external_body]
fn doc_error_text(e: &DocError) -> (r: String)
    ensures
        r@ == doc_error_display(*e),
{
    e.to_string()
}

/// What the frame half's own failure says; empty for the others.
pub open spec fn scene_cause(e: SceneError) -> Seq<char> {
    match e {
        SceneError::Frames(d) => doc_error_display(d),
        _ => Seq::empty(),
    }
}

/// What the document's own failure says; empty for the others.
pub open spec fn apply_cause(e: ApplyError) -> Seq<char> {
    match e {
        ApplyError::Invalid(d) => doc_error_display(d),
        ApplyError::Scene(s) => scene_cause(s),
        _ => Seq::empty(),
    }
}

/// What a scene failure says, where `cause` is what the frame half's own failure says.
pub open spec fn scene_text(e: SceneError, cause: Seq<char>) -> Seq<char> {
    match e {
        SceneError::Frames(_) => "frame half failed validation: "@ + cause,
        SceneError::OrphanObject { object, frame_index, len } => "object "@ + object@
            + " names frame index "@ + decimal(frame_index as nat)
            + ", which is not a placed frame (uid table len "@ + decimal(len as nat) + ")"@,
        SceneError::NonFinite(object) => "object "@ + object@ + " has a non-finite numeric field"@,
        SceneError::BadShape { object, why } => "object "@ + object@ + " has an invalid shape: "@
            + why@,
        SceneError::SeriesMisaligned { segment, epoch, why } => match epoch {
            Some(k) => "scene series misaligned at segment "@ + decimal(segment as nat)
                + ", epoch "@ + decimal(k as nat) + ": "@ + why@,
            None => "scene series misaligned at segment "@ + decimal(segment as nat) + ": "@ + why@,
        },
    }
}

/// Join texts.
fn join(parts: &Vec<&str>) -> (r: String)
    ensures
        r@ == joined(parts@, parts@.len() as int),
{
    let mut r: String = String::new();
    let mut i: usize = 0;
    while i < parts.len()
        invariant
            i <= parts@.len(),
            r@ == joined(parts@, i as int),
        decreases parts@.len() - i,
    {
        r.append(parts[i]);
        i = i + 1;
    }
    r
}

/// The first `n` texts, one after the other.
spec fn joined(parts: Seq<&str>, n: int) -> Seq<char>
    decreases n,
{
    if n <= 0 {
        Seq::empty()
    } else {
        joined(parts, n - 1) + parts[n - 1]@
    }
}

impl SceneError {
    /// What the failure says, given what the frame half's own failure says.
    pub fn message_with(&self, cause: &str) -> (r: String)
        ensures
            r@ == scene_text(*self, cause@),
    {
        proof {
            reveal_with_fuel(joined, 10);
        }
        match self {
            SceneError::Frames(_) => {
                let r: String = join(&vec!["frame half failed validation: ", cause]);
                assert(r@ =~= scene_text(*self, cause@));
                r
            },
            SceneError::OrphanObject { object, frame_index, len } => {
                let index: String = number(*frame_index as usize);
                let total: String = number(*len);
                let r: String = join(
                    &vec![
                        "object ",
                        object.as_str(),
                        " names frame index ",
                        index.as_str(),
                        ", which is not a placed frame (uid table len ",
                        total.as_str(),
                        ")",
                    ],
                );
                assert(r@ =~= scene_text(*self, cause@));
                r
            },
            SceneError::NonFinite(object) => {
                let r: String = join(
                    &vec!["object ", object.as_str(), " has a non-finite numeric field"],
                );
                assert(r@ =~= scene_text(*self, cause@));
                r
            },
            SceneError::BadShape { object, why } => {
                let r: String = join(
                    &vec!["object ", object.as_str(), " has an invalid shape: ", *why],
                );
                assert(r@ =~= scene_text(*self, cause@));
                r
            },
            SceneError::SeriesMisaligned { segment, epoch, why } => {
                let at: String = number(*segment);
                match epoch {
                    Some(k) => {
                        let row: String = number(*k);
                        let r: String = join(
                            &vec![
                                "scene series misaligned at segment ",
                                at.as_str(),
                                ", epoch ",
                                row.as_str(),
                                ": ",
                                *why,
                            ],
                        );
                        assert(r@ =~= scene_text(*self, cause@));
                        r
                    },
                    None => {
                        let r: String = join(
                            &vec![
                                "scene series misaligned at segment ",
                                at.as_str(),
                                ": ",
                                *why,
                            ],
                        );
                        assert(r@ =~= scene_text(*self, cause@));
                        r
                    },
                }
            },
        }
    }

    /// What the failure says.
    pub fn message(&self) -> (r: String)
        ensures
            r@ == scene_text(*self, scene_cause(*self)),
    {
        let cause: String = match self {
            SceneError::Frames(e) => doc_error_text(e),
            _ => String::new(),
        };
        self.message_with(cause.as_str())
    }
}

/// What a failed application says, where `cause` is what the document's own failure says.
pub open spec fn apply_text(e: ApplyError, cause: Seq<char>) -> Seq<char> {
    match e {
        ApplyError::Invalid(_) => "invalid frame document (keyframe handshake): "@ + cause,
        ApplyError::DanglingParent { child, parent } => "frame "@ + child@.label()
            + " names parent "@ + parent@.label() + ", which has no record"@,
        ApplyError::NoSuchEpoch => "series segment/epoch index out of range"@,
        ApplyError::Scene(s) => "scene wire error: "@ + scene_text(s, cause),
    }
}

impl ApplyError {
    /// What the failure says, given what the document's own failure says.
    pub fn message_with(&self, cause: &str) -> (r: String)
        ensures
            r@ == apply_text(*self, cause@),
    {
        proof {
            reveal_with_fuel(joined, 10);
        }
        match self {
            ApplyError::Invalid(_) => {
                let r: String = join(&vec!["invalid frame document (keyframe handshake): ", cause]);
                assert(r@ =~= apply_text(*self, cause@));
                r
            },
            ApplyError::DanglingParent { child, parent } => {
                let (c, p): (String, String) = (child.label(), parent.label());
                let r: String = join(
                    &vec![
                        "frame ",
                        c.as_str(),
                        " names parent ",
                        p.as_str(),
                        ", which has no record",
                    ],
                );
                assert(r@ =~= apply_text(*self, cause@));
                r
            },
            ApplyError::NoSuchEpoch => "series segment/epoch index out of range".to_owned(),
            ApplyError::Scene(s) => {
                let inner: String = s.message_with(cause);
                let r: String = join(&vec!["scene wire error: ", inner.as_str()]);
                assert(r@ =~= apply_text(*self, cause@));
                r
            },
        }
    }

    /// What the failure says.
    pub fn message(&self) -> (r: String)
        ensures
            r@ == apply_text(*self, apply_cause(*self)),
    {
        let cause: String = match self {
            ApplyError::Invalid(e) => doc_error_text(e),
            ApplyError::Scene(SceneError::Frames(e)) => doc_error_text(e),
            _ => String::new(),
        };
        self.message_with(cause.as_str())
    }
}

/// The number that decimal digits spell.
pub open spec fn spelled(s: Seq<char>) -> int
    decreases s.len(),
{
    if s.len() == 0 {
        0
    } else {
        10 * spelled(s.drop_last()) + (s.last() as int - 48)
    }
}

/// A number in decimal spells that number, in digits alone and without a leading zero.
pub proof fn law_decimals_spell_their_number(n: nat)
    ensures
        spelled(decimal(n)) == n,
        decimal(n).len() > 0,
        forall|i: int| 0 <= i < decimal(n).len() ==> 48 <= (#[trigger] decimal(n)[i]) as int <= 57,
        n > 0 ==> decimal(n)[0] as int != 48,
    decreases n,
{
    let d = n % 10;
    assert(digit(d) as int == 48 + d);
    if n < 10 {
        assert(decimal(n).drop_last() =~= Seq::empty());
        reveal_with_fuel(spelled, 2);
    } else {
        law_decimals_spell_their_number(n / 10);
        assert(decimal(n).drop_last() =~= decimal(n / 10));
        assert forall|i: int| 0 <= i < decimal(n).len() implies 48 <= (
        #[trigger] decimal(n)[i]) as int <= 57 by {
            if i < decimal(n / 10).len() {
                assert(decimal(n)[i] == decimal(n / 10)[i]);
            }
        }
        assert(decimal(n)[0] == decimal(n / 10)[0]);
    }
}

/// A failure that is an object's says so with the object's id, and one of a timeline with the
/// number of the segment.
pub proof fn law_messages_name_what_failed(e: SceneError, cause: Seq<char>)
    ensures
        e matches SceneError::OrphanObject { object, frame_index, len } ==> object@.is_prefix_of(
            scene_text(e, cause).skip(7),
        ),
        e matches SceneError::NonFinite(object) ==> object@.is_prefix_of(
            scene_text(e, cause).skip(7),
        ),
        e matches SceneError::BadShape { object, why } ==> object@.is_prefix_of(
            scene_text(e, cause).skip(7),
        ) && why@.is_suffix_of(scene_text(e, cause)),
        e matches SceneError::SeriesMisaligned { segment, epoch, why } ==> decimal(
            segment as nat,
        ).is_prefix_of(scene_text(e, cause).skip(35)) && why@.is_suffix_of(scene_text(e, cause)),
        e matches SceneError::Frames(_) ==> cause.is_suffix_of(scene_text(e, cause)),
{
    reveal_strlit("object ");
    reveal_strlit("scene series misaligned at segment ");
    let t = scene_text(e, cause);
    match e {
        SceneError::OrphanObject { object, .. } => {
            assert(t.skip(7).subrange(0, object@.len() as int) =~= object@);
        },
        SceneError::NonFinite(object) => {
            assert(t.skip(7).subrange(0, object@.len() as int) =~= object@);
        },
        SceneError::BadShape { object, why } => {
            assert(t.skip(7).subrange(0, object@.len() as int) =~= object@);
            assert(t.subrange(t.len() - why@.len(), t.len() as int) =~= why@);
        },
        SceneError::SeriesMisaligned { segment, epoch, why } => {
            let d = decimal(segment as nat);
            assert(t.skip(35).subrange(0, d.len() as int) =~= d);
            assert(t.subrange(t.len() - why@.len(), t.len() as int) =~= why@);
        },
        SceneError::Frames(_) => {
            assert(t.subrange(t.len() - cause.len(), t.len() as int) =~= cause);
        },
    }
}

/// An object without a frame is reported with the index that it named and the length of the table,
/// each in decimal, and a misaligned epoch with its number.
pub proof fn law_messages_give_the_numbers(e: SceneError, cause: Seq<char>)
    ensures
        e matches SceneError::OrphanObject { object, frame_index, len } ==> {
            let rest = scene_text(e, cause).skip(26 + object@.len() as int);
            &&& decimal(frame_index as nat).is_prefix_of(rest)
            &&& decimal(len as nat).push(')').is_suffix_of(rest)
        },
        e matches SceneError::SeriesMisaligned { segment, epoch, why } ==> (epoch matches Some(k)
            ==> decimal(k as nat).is_prefix_of(
            scene_text(e, cause).skip(43 + decimal(segment as nat).len() as int),
        )),
{
    reveal_strlit("object ");
    reveal_strlit(" names frame index ");
    reveal_strlit(")");
    reveal_strlit("scene series misaligned at segment ");
    reveal_strlit(", epoch ");
    let t = scene_text(e, cause);
    match e {
        SceneError::OrphanObject { object, frame_index, len } => {
            let rest = t.skip(26 + object@.len() as int);
            let (d, l) = (decimal(frame_index as nat), decimal(len as nat).push(')'));
            assert(rest.subrange(0, d.len() as int) =~= d);
            assert(rest.subrange(rest.len() - l.len(), rest.len() as int) =~= l);
        },
        SceneError::SeriesMisaligned { segment, epoch, why } => {
            match epoch {
                Some(k) => {
                    let rest = t.skip(43 + decimal(segment as nat).len() as int);
                    let d = decimal(k as nat);
                    assert(rest.subrange(0, d.len() as int) =~= d);
                },
                None => {},
            }
        },
        _ => {},
    }
}

/// A failed application says which frame names which parent, what the document's own failure says,
/// or what is wrong with the scene.
pub proof fn law_applications_say_why_they_failed(e: ApplyError, cause: Seq<char>)
    ensures
        e matches ApplyError::Invalid(_) ==> cause.is_suffix_of(apply_text(e, cause)),
        e matches ApplyError::Scene(s) ==> scene_text(s, cause).is_suffix_of(apply_text(e, cause)),
        e matches ApplyError::DanglingParent { child, parent } ==> child@.label().is_prefix_of(
            apply_text(e, cause).skip(6),
        ) && parent@.label().is_prefix_of(
            apply_text(e, cause).skip(20 + child@.label().len() as int),
        ),
{
    reveal_strlit("frame ");
    reveal_strlit(" names parent ");
    let t = apply_text(e, cause);
    match e {
        ApplyError::Invalid(_) => {
            assert(t.subrange(t.len() - cause.len(), t.len() as int) =~= cause);
        },
        ApplyError::Scene(s) => {
            let inner = scene_text(s, cause);
            assert(t.subrange(t.len() - inner.len(), t.len() as int) =~= inner);
        },
        ApplyError::DanglingParent { child, parent } => {
            let (c, p) = (child@.label(), parent@.label());
            assert(t.skip(6).subrange(0, c.len() as int) =~= c);
            let rest = t.skip(20 + c.len() as int);
            assert(rest.subrange(0, p.len() as int) =~= p);
        },
        _ => {},
    }
}

} // verus!
