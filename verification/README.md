# rivulet

Pipelines of contiguous data: circular buffers whose every window is one
slice, streams over slices, and the views that read and write them. The
library under `src/` is written in Verus; its contracts state what each
operation returns and changes, and its proofs establish, among other
things, that every reader sees exactly what the writer released, that a
writer never overwrites what a reader still needs, and that buffer sizes
are the smallest whole number of allocation units that hold the request.

Layout:

- `src/unsafe_circular_buffer.rs` — mirrored ring storage and buffer sizing.
- `src/circular_buffer.rs` — the buffer whose positions count every element.
- `src/buffer.rs`, `src/buffer/` — the buffer whose positions wrap around,
  with one or many readers.
- `src/stream.rs` — the writer's and readers' ends as traits (reserve,
  commit, request, consume), implemented by a buffer's ends bound to its
  state.
- `src/splittable.rs`, `src/splittable/` — sources, readers, cloneable
  readers (registered, so that the stream keeps what the slowest still
  needs) and two views in sequence.
- `src/view.rs`, `src/lazy.rs`, `src/io.rs`, `src/slice.rs` — views, lazy
  views and channels, byte I/O, slice streams.
- `src/vm.rs` — page sizes, the layout of mirrored memory, and the naming
  and retrying of shared memory files.
- `src/transform.rs` — the per-chunk decisions and mapping of transforms.
- `app/` — what needs the system or an executor: mapping mirrored memory,
  sharing a buffer between tasks, I/O traits, error formatting.

The ring storage holds its slots twice, back to back, in one vector, and
writes each element to both copies: the library holds no raw pointers, so
it keeps the mirrored layout itself rather than through mapped memory.
