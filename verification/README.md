# readset

A cache of evaluation results that is keyed on what each evaluation read.

While an evaluation runs, a recorder stands between it and its host and notes
every question with a digest of the answer. The rows make the key of the
result. To look a result up, the rows that were noted last time are asked
again: where the world answers as it did, the key is the same and the result
is served; where it does not, the key names nothing.

- `src/` is the library, proved with Verus: the questions and their wire form,
  replay, the folding of reads under trees that cannot change, the recorder,
  the witnesses and how they are filed, the result cache, the bounded set of
  witnesses in memory, and the package search.
- `app/` is what surrounds it on a machine: files, the clock, locks, and the
  hashes and stores that come with the content-addressed kernel.
- `tests/` runs the library from outside, with a store in memory.

The library computes no hash. Where one is needed it returns what is to be
hashed (`digest::Preimage`, `digest::Digest`) and takes the hash back, so the
laws about keys are laws about what goes into the hash.
