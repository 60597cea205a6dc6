# tonic_runtime

The object model, memory management and call semantics of the Tonic language
runtime, as a library of verified functions.

* `src/` is the library. Public functions state what they return and change;
  Verus proves the statements. Byte counts are stated up to the room that the
  allocator gives beyond what is held, and texts are hashed by a function that
  is only named. Values, heap and collector stand in `value`,
  `heap` and `soundness`; classes, attributes and descriptors in `class`,
  `lookup`, `attributes` and `assignment`; arithmetic in `integer`, `float`,
  `number` and `arithmetic`; the calling protocols under `calls`; what native
  extensions see in `native`, `handles`, `foreign` and `c_api`.
* The calling protocols do not call back. A function returns a `Step` that says
  what comes next; `Heap::perform` carries out the steps that the heap alone
  decides, and `Heap::resume` takes the result of a call.
* What keeps a minor collection from losing objects is `HeapView::sound`: the
  operations that make or change objects keep it, given values that the heap
  gave out. Raw access (`Heap::get_mut`) leaves that to its caller.
* Numbers in binary64 are held as bit patterns. Arithmetic on them is requested
  from the embedder.
* `app/` is what surrounds the library: the loop that runs steps, floating
  point, threads, and the C function table.
* `tests/` runs the library on concrete values.
