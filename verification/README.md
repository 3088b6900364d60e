# assignments

A small collection of verified Rust components, checked with Verus.

- `vec_ops`: adding a constant to every element of a vector (copying or in
  place) and reversing a vector (by swapping or by cloning).
- `password`: the decision of a password-guessing game for one input line.
- `event`: calendar events and date conflicts.
- `trie`: a prefix tree built from ASCII strings; it stores exactly the
  strings it was built from, and its shape is fixed by them up to the order
  of children.
- `memory`: a linear `i32` memory trait with two implementations, and the
  read-after-write laws.
- `ast`, `interpret`: a small stack-machine language and its one-step
  evaluation function, specified by a mathematical step relation, and a
  run of up to a given number of steps.
- `tcp`: the two sides of a retransmitting transfer over a lossy channel as
  state machines, with the proof that a completed transfer delivers every
  buffer in order.

`src/` is the verified library; `tests/` runs it; `app/` holds the input and
output around it (reading guesses from standard input, and the evaluation
loop of the interpreter).
