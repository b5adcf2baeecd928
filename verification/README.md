# kinetrace

A tracing toolkit: it collects what kernel trackers and instrumented processes
report, and writes it into one Perfetto trace.

* `src/` is the library, written in Verus. Each public function has a contract,
  and the laws that span functions are proof functions whose names begin with
  `law_`.
  * `protocol`, `archived`: events, labels and control messages, and how events
    look in a buffer.
  * `mpscbuf`: the ring buffer that many producers fill and one consumer reads.
  * `agent`: which client may run an agent, what each is answered, and when one
    is given up; the client's side of the same conversation.
  * `symbolizer`: interned frames and call stacks.
  * `perfetto`, `converter`: packets, and the order in which tracks and events
    become packets.
  * `bpf`: the trackers for block devices, the network, counters, processor
    time, stacks and the scheduler.
  * `tracing`, `config`: the extension for spans, and settings.
  * `text`, `table`, `power`, `sink`, `random`: what the others share.
* `tests/` runs the library.
* `app/` is the program around it: arguments, files, sockets, shared memory,
  kernel programs. Numbers in floating point are computed there.

Where the library calls another crate, the call stands behind a function whose
doc comment says what is believed of it.
