//! The in-process producer seam.

use vstd::prelude::*;
use crate::frame_doc::DocumentProducer;
use crate::scene::{SceneStore, SceneWriter};
use crate::scene_doc::SceneDocumentProducer;

verus! {

/// Something that publishes scene content into one layer.
///
/// The host hands the producer a writer already scoped to a named layer; the producer owns its
/// whole publish cycle — begin, stage, commit — because epoch and cadence are its own.
pub trait Producer {
    /// The producer has something that it can publish.
    open spec fn ready(&self) -> bool {
        true
    }

    /// Populate the writer's layer: stage a transaction and commit it. Other layers are
    /// untouched.
    fn populate(&self, w: &SceneWriter, store: &mut SceneStore)
        requires
            self.ready(),
            old(store).wf(),
        ensures
            final(store).wf(),
            final(store)@.contains_key(w.target()@),
            final(store)@ == old(store)@.insert(w.target()@, final(store)@[w.target()@]),
    ;
}

impl Producer for DocumentProducer {
    open spec fn ready(&self) -> bool {
        &&& crate::frame_doc::document_accepted(self.doc)
        &&& crate::frame_doc::parents_provided(crate::frame_doc::document_rows(self.doc))
    }

    /// Apply the document. A malformed one is the caller's mistake; where that is not known
    /// beforehand, use [`DocumentProducer::try_populate`].
    fn populate(&self, w: &SceneWriter, store: &mut SceneStore)
        ensures
            crate::frame_doc::frames_applied(
                Ok(()),
                *old(store),
                *final(store),
                w.target()@,
                crate::frame_doc::document_uids(self.doc),
                crate::frame_doc::document_rows(self.doc),
            ),
    {
        let r: Result<(), crate::frame_doc::ApplyError> = self.try_populate(w, store);
        assert(r is Ok);
    }
}

impl Producer for SceneDocumentProducer {
    open spec fn ready(&self) -> bool {
        &&& crate::scene_doc::document_ok(self.doc)
        &&& crate::frame_doc::parents_provided(crate::frame_doc::document_rows(self.doc.frames))
    }

    /// Apply the document. A malformed one is the caller's mistake; where that is not known
    /// beforehand, use [`SceneDocumentProducer::try_populate`].
    fn populate(&self, w: &SceneWriter, store: &mut SceneStore)
        ensures
            crate::scene_doc::scene_applied(
                Ok(()),
                *old(store),
                *final(store),
                w.target()@,
                crate::frame_doc::document_uids(self.doc.frames),
                crate::frame_doc::document_rows(self.doc.frames),
                self.doc.objects@,
            ),
    {
        let r: Result<(), crate::frame_doc::ApplyError> = self.try_populate(w, store);
        assert(r is Ok);
    }
}

} // verus!
