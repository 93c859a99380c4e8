# astrotui

Space scenarios in the terminal: a scene store that producers publish into layer by layer, a
camera that is a reference frame, and backends that rasterize what it sees into a `ratatui`
buffer.

`src/` is the library, verified with Verus. It decides everything that is decided: which layer
wins a contested id, which frames find a place in the tree, which objects are drawn, culled or
reported, at what level of detail a body draws, which dots and pixels a picture lights and in what
colour, whether a document may be applied, and which epoch of a recording is due. Numbers in
double precision are held by bit pattern, compared and quantized exactly over integers; the
library does no floating-point arithmetic.

| module | what it holds |
|---|---|
| `binary64`, `dither` | numbers by bit pattern; dithered quantization to eight bits |
| `text`, `keyed`, `names` | the order of identifiers; sequences keyed by them; interned names |
| `ident` | object ids, layer names and frame identities |
| `scene` | layers, transactions, snapshots and the store |
| `frames` | arranging frames into a forest |
| `camera`, `lod`, `render` | the eye, the level of detail, and the projection pass |
| `canvas`, `braille`, `color` | the terminal buffer and the two backends |
| `renderer` | what every backend does |
| `frame_doc`, `scene_doc` | validating and applying documents and recordings |
| `replay` | playing a recording at controlled sim time |
| `message` | what failures say |
| `producer` | the in-process producer seam |

`app/` is the host around it: floating-point optics and silhouettes, serialization, files, the
shared store for several threads, the widget and the event loop.

What the library takes on trust are the contracts of the calls it makes into `arc-swap`,
`astrodyn_frame_doc`, `astrodyn_quantities` and `ratatui`, and of one function of `std`; each
stands in a small function of its own whose comment says what is claimed.
