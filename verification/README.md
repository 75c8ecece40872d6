# merkle_gpu

Host side of Merkle tree construction on the GPU, over the Goldilocks field: what the GPU is told
to do, what is read back, and how the tree is put together. The library under `src/` is verified
with Verus.

| Module | Contents |
| --- | --- |
| `goldilocks`, `words`, `bytes` | field elements, Montgomery form, digests as words and as bytes |
| `layers`, `digests` | sizes and positions of a tree's layers, reassembly of the digest array |
| `gpu`, `plan`, `job` | pipelines, layouts and constants; buffers and dispatches of one tree |
| `shaders` | a model of what the shaders do to the buffers, and the tree that the work comes to under it |
| `context`, `queue`, `readback`, `finish` | the shared context, waiting, reading back, finishing |
| `chars`, `vectors`, `binary`, `padding` | test vectors as text and as bytes, padding to a full tree |
| `text`, `report` | decimal notation, reports and the comparison of two trees |

`app/` carries the plans out on a WebGPU device and offers the entry points for the browser and the
native benchmark. Poseidon, its constants, the shaders and the test data come from the embedding
crate, through the trait in `app/backend.rs`.
