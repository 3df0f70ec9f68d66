# tcp_sender

Sender-side building blocks of a TCP stack, written in Verus: every function is proved to do
what its contract says.

- `seq_number`: sequence numbers on a circle of 2^32 positions.
- `sack`: the scoreboard of ranges that the peer has selectively acknowledged. `sack::laws`
  holds what is true of boards as a whole: octets count the covered numbers, a board is
  determined by what it covers, and the order of reports does not matter.
- `brutal`: fixed-rate congestion control.
- `bbr`: BBR congestion control. `bbr::model` describes the controller as a state and the state
  that each event leads to; `bbr` is the executable controller, held to that model;
  `bbr::laws`, `bbr::regrowth_laws`, `bbr::clock_laws`, `bbr::estimation_laws` and
  `bbr::aggregation_laws` state what follows for all states and sequences of events.
- `time`, `rtt`: instants, spans, and the readings of a round-trip estimator.

No floating point is used. Gains are fixed-point numbers, and `bbr::gain` rounds products with
them by the rule of double precision, which is proved. That this agrees with the floats of the
machine is shown by the tests in `tests/gain.rs`.
