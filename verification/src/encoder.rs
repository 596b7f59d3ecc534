//! Streaming encoder: extracts alternating bit runs from the input byte
//! stream and emits the symbol-coded compressed bytes.
use vstd::prelude::*;
use crate::format::cont_stride;
use crate::format::run_code;

verus! {

/// Possible states the encoder can be in.
#[derive(Clone, Copy, Debug, PartialEq, Eq, Structural)]
pub enum EncoderState {
    /// The encoder is still able to consume bytes.
    CanConsume,
    /// The encoder is still able to produce bytes.
    CanProduce,
    /// The encoder has reached the terminal state.
    Terminated,
}

/// Streaming encoder context.
///
/// `output_data`/`output_bits` hold the residual input byte under scan;
/// `symbol_data`/`symbol_bits` hold the coded bits on their way out.
#[derive(Debug)]
pub struct Encoder {
    symbol_bits: usize,
    queued_bits: usize,
    output_bits: usize,

    symbol_data: u32,
    output_data: u8,

    queued_done: bool,
    queued_mode: bool,
    symbol_term: bool,
    queued_term: bool,
    output_term: bool,
}

impl Encoder {
    /// Structural well-formedness: the outgoing symbol buffer is
    /// left-justified with its unused low bits zero, the residual input byte
    /// holds at most eight bits, and the terminal flags only advance in
    /// order: end of input signalled, end-of-stream symbol injected with all
    /// runs drained, symbol buffer flushed.
    pub closed spec fn inv(self) -> bool {
        &&& self.output_bits <= 8
        &&& self.symbol_bits <= 32
        &&& (self.symbol_bits < 32 ==> (self.symbol_data << (self.symbol_bits as u32)) == 0)
        &&& (self.symbol_term ==> self.queued_bits == 0 && self.output_bits == 0
            && !self.queued_done && self.queued_term)
        &&& (self.output_term ==> self.symbol_term && self.symbol_bits == 0)
    }

    /// The encoder has emitted the end-of-stream marker completely; `step`
    /// has nothing left to do.
    pub closed spec fn terminated(self) -> bool {
        self.output_term
    }

    /// The caller has signalled that no further input bytes will arrive.
    pub closed spec fn end_signaled(self) -> bool {
        self.queued_term
    }

    /// Input bits accepted but not yet turned into symbols: the accumulating
    /// run plus the residual byte under scan.
    pub closed spec fn pending_bits(self) -> int {
        self.queued_bits + self.output_bits
    }

    /// Coded bytes are owed that the output buffer cannot take.
    pub closed spec fn output_blocked(self) -> bool {
        self.symbol_bits >= 8
    }

    /// The encoder is genuinely starved: the residual byte is empty and
    /// neither the end of input nor the end-of-stream symbol was reached.
    pub closed spec fn starving(self) -> bool {
        self.output_bits == 0 && !self.queued_term && !self.symbol_term
    }

    /// The all-zero starting state.
    pub closed spec fn is_initial(self) -> bool {
        self == Self::start()
    }

    /// Ordering measure for one `step` iteration: the terminal flags advance,
    /// then input shrinks, then the residual byte drains into the run, then
    /// the run drains into symbols.
    spec fn phase(self) -> int {
        if self.output_term {
            0
        } else if self.symbol_term {
            1
        } else {
            2
        }
    }

    /// A completed run is waiting for its symbol.
    spec fn done01(self) -> int {
        if self.queued_done {
            1
        } else {
            0
        }
    }

    /// The top residual bit does not extend the current run, so the next
    /// scan closes the run.
    spec fn mismatch01(self) -> int {
        if !self.queued_done && self.output_bits > 0 && (if self.queued_mode {
            self.output_data < 128
        } else {
            self.output_data >= 128
        }) {
            1
        } else {
            0
        }
    }

    /// Leading bits of the residual byte that extend a run of bit value
    /// `qm`.
    spec fn lead_match(od: u8, qm: bool) -> u32 {
        if qm {
            vstd::std_specs::bits::u8_leading_ones(od)
        } else {
            vstd::std_specs::bits::u8_leading_zeros(od)
        }
    }

    /// One scan of a residual byte holding `ob` valid bits, starting from
    /// state `pre`: the leading bits that extend the current run move into
    /// it; a zero count instead closes the run and flags it for emission.
    spec fn scan_step(pre: Encoder, od: u8, ob: int) -> Encoder {
        let c = (if Self::lead_match(od, pre.queued_mode) <= ob {
            Self::lead_match(od, pre.queued_mode) as int
        } else {
            ob
        });
        if c == 0 {
            Encoder {
                output_data: od,
                output_bits: ob as usize,
                queued_mode: !pre.queued_mode,
                queued_done: true,
                ..pre
            }
        } else {
            Encoder {
                output_data: (if c < 8 {
                    od << (c as u8)
                } else {
                    od
                }),
                output_bits: (ob - c) as usize,
                queued_bits: (pre.queued_bits + c) as usize,
                ..pre
            }
        }
    }

    /// The symbol buffer and its bit count right after the emission phase of
    /// `produce`, before whole bytes are flushed: the end-of-stream field or
    /// the completed run's code joins the buffered bits.
    spec fn emission(pre: Encoder) -> (u32, int) {
        if pre.symbol_bits <= 8 {
            if pre.symbol_term && !pre.output_term {
                (
                    (pre.symbol_data | (0xFFFu32 << ((8 - pre.symbol_bits) as u32))),
                    (if pre.symbol_bits == 0 {
                        24int
                    } else {
                        32int
                    }),
                )
            } else if pre.queued_done {
                (
                    (pre.symbol_data | (crate::format::run_code_pattern(
                        pre.queued_bits as int,
                        !pre.queued_mode,
                    ) << ((32 - crate::format::run_code_len(pre.queued_bits as int,
                        !pre.queued_mode) - pre.symbol_bits) as u32))),
                    pre.symbol_bits + crate::format::run_code_len(
                        pre.queued_bits as int,
                        !pre.queued_mode,
                    ),
                )
            } else {
                (pre.symbol_data, pre.symbol_bits as int)
            }
        } else {
            (pre.symbol_data, pre.symbol_bits as int)
        }
    }

    /// The `j`-th whole byte flushed from the symbol buffer `w`.
    spec fn flushed_byte(w: u32, j: int) -> u8 {
        ((w >> ((24 - 8 * j) as u32)) as u8)
    }

    /// The same state with the end of input signalled.
    pub closed spec fn with_end(self) -> Encoder {
        Encoder { queued_term: true, ..self }
    }

    /// The all-zero starting state as a value.
    pub closed spec fn start() -> Encoder {
        Encoder {
            symbol_bits: 0,
            queued_bits: 0,
            output_bits: 0,
            symbol_data: 0,
            output_data: 0,
            queued_done: false,
            queued_mode: false,
            symbol_term: false,
            queued_term: false,
            output_term: false,
        }
    }

    /// The consume phase as a function: pull and scan a byte, scan the
    /// residual byte, close out at the end of input, or report starvation.
    pub closed spec fn consume_spec(e: Encoder, input: Seq<u8>, cl: int) -> (Encoder, int, bool) {
        if e.symbol_term {
            (e, cl, false)
        } else if e.output_bits == 0 && cl < input.len() {
            if e.queued_done {
                ((Encoder { output_data: input[cl], output_bits: 8, ..e }), cl + 1, false)
            } else {
                (Self::scan_step(e, input[cl], 8), cl + 1, false)
            }
        } else if e.output_bits == 0 && !e.queued_term {
            (e, cl, true)
        } else if e.queued_done {
            (e, cl, false)
        } else if e.output_bits > 0 {
            (Self::scan_step(e, e.output_data, e.output_bits as int), cl, false)
        } else if e.queued_bits > 0 {
            (Self::scan_step(e, e.output_data, 0), cl, false)
        } else {
            ((Encoder { symbol_term: true, ..e }), cl, false)
        }
    }

    /// The produce phase as a function: emit the marker or the completed
    /// run's code into the symbol buffer, then flush whole bytes.
    pub closed spec fn produce_spec(e: Encoder, out: Seq<u8>, pl: int) -> (
        Encoder,
        Seq<u8>,
        int,
        bool,
    ) {
        let (w, sbm) = Self::emission(e);
        let e1 = (if e.symbol_bits <= 8 && e.queued_done {
            if crate::format::run_code_cont(e.queued_bits as int, !e.queued_mode) {
                Encoder {
                    symbol_data: w,
                    symbol_bits: sbm as usize,
                    queued_bits: (e.queued_bits - cont_stride(!e.queued_mode)) as usize,
                    ..e
                }
            } else {
                Encoder {
                    symbol_data: w,
                    symbol_bits: sbm as usize,
                    queued_bits: 0,
                    queued_done: false,
                    ..e
                }
            }
        } else {
            Encoder { symbol_data: w, symbol_bits: sbm as usize, ..e }
        });
        let whole = sbm / 8;
        let t = (if whole <= out.len() - pl {
            whole
        } else {
            out.len() - pl
        });
        let out1 = out.map(
            |i: int, v: u8| if pl <= i < pl + t {
                Self::flushed_byte(w, i - pl)
            } else {
                v
            },
        );
        let e2 = Encoder {
            symbol_data: (if t < 4 {
                (w << ((8 * t) as u32))
            } else {
                0u32
            }),
            symbol_bits: ((sbm - 8 * t) as usize),
            ..e1
        };
        if whole > out.len() - pl {
            (e2, out1, pl + t, true)
        } else if e2.symbol_term && e2.symbol_bits == 0 {
            ((Encoder { output_term: true, ..e2 }), out1, pl + t, false)
        } else {
            (e2, out1, pl + t, false)
        }
    }

    /// The whole encoding loop as a function of the starting state, the
    /// input bytes and the output buffer: alternate `consume_spec` and
    /// `produce_spec` until starved, blocked, or terminated. `None` when the
    /// given fuel runs out first.
    pub closed spec fn run(e: Encoder, input: Seq<u8>, cl: int, out: Seq<u8>, pl: int, fuel: nat)
        -> Option<(int, int, Seq<u8>, EncoderState, Encoder)>
        decreases fuel,
    {
        if fuel == 0 {
            None
        } else {
            let (e1, cl1, starved) = Self::consume_spec(e, input, cl);
            if starved {
                Some((cl1, pl, out, EncoderState::CanConsume, e1))
            } else {
                let (e2, out2, pl2, full) = Self::produce_spec(e1, out, pl);
                if full {
                    Some((cl1, pl2, out2, EncoderState::CanProduce, e2))
                } else if e2.output_term {
                    Some((cl1, pl2, out2, EncoderState::Terminated, e2))
                } else {
                    Self::run(e2, input, cl1, out2, pl2, (fuel - 1) as nat)
                }
            }
        }
    }

    /// How the slice helper reads a finished encoding `run`: a blocked
    /// output wants more space; a terminated run returns its length. The
    /// starved outcome never occurs, since the helper hands over the whole
    /// input together with the end-of-input signal.
    pub closed spec fn slice_outcome(o: (int, int, Seq<u8>, EncoderState, Encoder)) -> Result<
        usize,
        EncodeSliceError,
    > {
        match o.3 {
            EncoderState::Terminated => Ok(o.1 as usize),
            EncoderState::CanProduce => Err(EncodeSliceError::NeedsMoreSpace),
            EncoderState::CanConsume => Err(EncodeSliceError::NeedsMoreSpace),
        }
    }


    /// More fuel never changes a finished run: the interpreter is
    /// deterministic, and the fuel only bounds how many times the two phases
    /// may alternate.
    pub proof fn lemma_run_fuel_monotonic(
        d: Encoder,
        input: Seq<u8>,
        cl: int,
        out: Seq<u8>,
        pl: int,
        f1: nat,
        f2: nat,
    )
        requires
            f1 <= f2,
            Self::run(d, input, cl, out, pl, f1) is Some,
        ensures
            Self::run(d, input, cl, out, pl, f2) == Self::run(d, input, cl, out, pl, f1),
        decreases f1,
    {
        if f1 > 0 {
            let (d1, cl1, starved) = Self::consume_spec(d, input, cl);
            if !starved {
                let (d2, out2, pl2, full) = Self::produce_spec(d1, out, pl);
                if !full && !d2.output_term {
                    Self::lemma_run_fuel_monotonic(
                        d2,
                        input,
                        cl1,
                        out2,
                        pl2,
                        (f1 - 1) as nat,
                        (f2 - 1) as nat,
                    );
                }
            }
        }
    }

    /// Empty input encodes to just the end-of-stream marker: from the
    /// initial state with the end of input signalled, one round of the
    /// machine writes the three marker bytes `0x00 0x0F 0xFF` and
    /// terminates, consuming nothing.
    pub proof fn lemma_encode_empty(out: Seq<u8>)
        requires
            out.len() >= 3,
        ensures
            (match Self::run(Self::start().with_end(), Seq::<u8>::empty(), 0, out, 0, 1) {
                Some(o) => {
                    &&& o.0 == 0
                    &&& o.1 == 3
                    &&& o.2 =~= out.update(0, 0x00u8).update(1, 0x0Fu8).update(2, 0xFFu8)
                    &&& o.3 == EncoderState::Terminated
                    &&& o.4.terminated()
                },
                None => false,
            }),
    {
        let e0 = Self::start().with_end();
        let (e1, cl1, starved) = Self::consume_spec(e0, Seq::<u8>::empty(), 0);
        assert(e1 == (Encoder { symbol_term: true, ..e0 }) && cl1 == 0 && !starved);
        let (w, sbm) = Self::emission(e1);
        assert(w == 0xFFF00u32 && ((0xFFF00u32 >> 24) as u8) == 0x00u8
            && ((0xFFF00u32 >> 16) as u8) == 0x0Fu8 && ((0xFFF00u32 >> 8) as u8) == 0xFFu8
            && (0xFFF00u32 << 24) == 0u32) by (bit_vector)
            requires
                w == 0u32 | (0xFFFu32 << ((8 - 0) as u32)),
        ;
        let (e2, out2, pl2, full) = Self::produce_spec(e1, out, 0);
        assert(!full && pl2 == 3 && e2.output_term);
        assert(out2 =~= out.update(0, 0x00u8).update(1, 0x0Fu8).update(2, 0xFFu8));
    }

    /// Constructs a new encoder instance in its initial state.
    pub fn new() -> (e: Self)
        ensures
            e.is_initial(),
            e.inv(),
            !e.terminated(),
            !e.end_signaled(),
            e.pending_bits() == 0,
    {
        proof {
            assert(0u32 << 0u32 == 0u32) by (bit_vector);
        }
        Self {
            symbol_bits: 0,
            queued_bits: 0,
            output_bits: 0,

            symbol_data: 0,
            output_data: 0,

            queued_done: false,
            queued_mode: false,
            symbol_term: false,
            queued_term: false,
            output_term: false,
        }
    }

    /// Resets this encoder instance to its initial state.
    pub fn reset(&mut self)
        ensures
            final(self).is_initial(),
            final(self).inv(),
            final(self).pending_bits() == 0,
            !final(self).end_signaled(),
            !final(self).terminated(),
    {
        *self = Self::new();
    }

    /// Steps this encoder instance, returning a `(bytes consumed, bytes
    /// produced, state)` tuple.
    ///
    /// The returned counts, the bytes written, the reported state and the
    /// encoder's new state are exactly what the machine model `run` yields
    /// on the given input from the starting state.
    #[verifier::rlimit(80)]
    pub fn step(&mut self, consumed: &[u8], produced: &mut [u8]) -> (r: (usize, usize, EncoderState))
        requires
            old(self).inv(),
            old(self).pending_bits() + 8 * consumed@.len() <= usize::MAX,
        ensures
            final(self).inv(),
            r.0 <= consumed@.len(),
            r.1 <= old(produced)@.len(),
            final(produced)@.len() == old(produced)@.len(),
            forall|i: int| r.1 <= i < old(produced)@.len() ==> final(produced)@[i] == old(produced)@[i],
            (r.2 is Terminated) <==> final(self).terminated(),
            r.2 is CanConsume ==> r.0 == consumed@.len() && final(self).starving(),
            r.2 is CanProduce ==> r.1 == old(produced)@.len() && final(self).output_blocked()
                && !final(self).terminated(),
            old(self).terminated() ==> *final(self) == *old(self) && r.0 == 0 && r.1 == 0,
            final(self).end_signaled() == old(self).end_signaled(),
            final(self).terminated() ==> final(self).end_signaled(),
            final(self).pending_bits() <= old(self).pending_bits() + 8 * r.0,
            exists|f: nat| Self::run(*old(self), consumed@, 0, old(produced)@, 0, f)
                == Some((r.0 as int, r.1 as int, final(produced)@, r.2, *final(self))),
    {
        let mut consumed_len: usize = 0;
        let mut produced_len: usize = 0;
        let ghost mut steps: nat = 0;

        loop
            invariant_except_break
                forall|f: nat| Self::run(*old(self), consumed@, 0, old(produced)@, 0, f + steps)
                    == #[trigger] Self::run(
                    *self,
                    consumed@,
                    consumed_len as int,
                    produced@,
                    produced_len as int,
                    f,
                ),
            invariant
                self.inv(),
                consumed_len <= consumed@.len(),
                produced_len <= produced@.len(),
                produced@.len() == old(produced)@.len(),
                forall|i: int| produced_len <= i < old(produced)@.len()
                    ==> produced@[i] == old(produced)@[i],
                old(self).terminated() ==> *self == *old(self) && consumed_len == 0
                    && produced_len == 0,
                self.queued_term == old(self).queued_term,
                self.pending_bits() <= old(self).pending_bits() + 8 * consumed_len,
                old(self).pending_bits() + 8 * consumed@.len() <= usize::MAX,
            ensures
                self.inv(),
                self.output_term,
                consumed_len <= consumed@.len(),
                produced_len <= produced@.len(),
                produced@.len() == old(produced)@.len(),
                forall|i: int| produced_len <= i < old(produced)@.len()
                    ==> produced@[i] == old(produced)@[i],
                old(self).terminated() ==> *self == *old(self) && consumed_len == 0
                    && produced_len == 0,
                self.queued_term == old(self).queued_term,
                self.pending_bits() <= old(self).pending_bits() + 8 * consumed_len,
                exists|f: nat| Self::run(*old(self), consumed@, 0, old(produced)@, 0, f) == Some((
                    consumed_len as int,
                    produced_len as int,
                    produced@,
                    EncoderState::Terminated,
                    *self,
                )),
            decreases
                self.phase(),
                consumed@.len() - consumed_len,
                self.output_bits,
                self.queued_bits,
                self.symbol_bits,
                self.done01(),
                self.mismatch01(),
        {
            let ghost pre = *self;
            let ghost pre_cl = consumed_len as int;
            let ghost pre_out = produced@;
            let ghost pre_pl = produced_len as int;

            let starved = self.consume(consumed, &mut consumed_len);

            proof {
                assert((*self, consumed_len as int, starved) == Self::consume_spec(
                    pre,
                    consumed@,
                    pre_cl,
                ));
            }

            if starved {
                proof {
                    assert(Self::run(pre, consumed@, pre_cl, pre_out, pre_pl, 1) == Some((
                        consumed_len as int,
                        produced_len as int,
                        produced@,
                        EncoderState::CanConsume,
                        *self,
                    )));
                    assert(Self::run(*old(self), consumed@, 0, old(produced)@, 0, 1 + steps)
                        == Some((
                        consumed_len as int,
                        produced_len as int,
                        produced@,
                        EncoderState::CanConsume,
                        *self,
                    )));
                }
                return (consumed_len, produced_len, EncoderState::CanConsume);
            }

            let ghost e1 = *self;
            let full = self.produce(produced, &mut produced_len);

            proof {
                let spec_step = Self::produce_spec(e1, pre_out, pre_pl);
                assert(produced@ =~= spec_step.1);
                assert((*self, produced@, produced_len as int, full) == spec_step);
            }

            if full {
                proof {
                    assert(Self::run(pre, consumed@, pre_cl, pre_out, pre_pl, 1) == Some((
                        consumed_len as int,
                        produced_len as int,
                        produced@,
                        EncoderState::CanProduce,
                        *self,
                    )));
                    assert(Self::run(*old(self), consumed@, 0, old(produced)@, 0, 1 + steps)
                        == Some((
                        consumed_len as int,
                        produced_len as int,
                        produced@,
                        EncoderState::CanProduce,
                        *self,
                    )));
                }
                return (consumed_len, produced_len, EncoderState::CanProduce);
            }

            if self.output_term {
                proof {
                    assert(Self::run(pre, consumed@, pre_cl, pre_out, pre_pl, 1) == Some((
                        consumed_len as int,
                        produced_len as int,
                        produced@,
                        EncoderState::Terminated,
                        *self,
                    )));
                    assert(Self::run(*old(self), consumed@, 0, old(produced)@, 0, 1 + steps)
                        == Some((
                        consumed_len as int,
                        produced_len as int,
                        produced@,
                        EncoderState::Terminated,
                        *self,
                    )));
                }
                break;
            }

            proof {
                assert forall|f: nat|
                    Self::run(*old(self), consumed@, 0, old(produced)@, 0, f + (steps + 1))
                        == #[trigger] Self::run(
                        *self,
                        consumed@,
                        consumed_len as int,
                        produced@,
                        produced_len as int,
                        f,
                    ) by {
                    assert(Self::run(pre, consumed@, pre_cl, pre_out, pre_pl, (f + 1) as nat)
                        == Self::run(
                        *self,
                        consumed@,
                        consumed_len as int,
                        produced@,
                        produced_len as int,
                        f,
                    ));
                    assert((f + 1) + steps == f + (steps + 1));
                }
                steps = steps + 1;
            }
        }

        (consumed_len, produced_len, EncoderState::Terminated)
    }

    /// Informs the encoder that no further input bytes are available.
    pub fn set_consumed_bytes_end(&mut self)
        requires
            old(self).inv(),
        ensures
            final(self).inv(),
            final(self).end_signaled(),
            final(self).pending_bits() == old(self).pending_bits(),
            final(self).terminated() == old(self).terminated(),
            *final(self) == old(self).with_end(),
    {
        self.queued_term = true;
    }

    /// Pulls the next input byte into the residual buffer and extracts one
    /// stretch of run bits from it. Returns true when starved for input.
    fn consume(&mut self, consumed: &[u8], consumed_len: &mut usize) -> (starved: bool)
        requires
            old(self).inv(),
            *old(consumed_len) <= consumed@.len(),
            old(self).pending_bits() + 8 * (consumed@.len() - *old(consumed_len)) <= usize::MAX,
        ensures
            final(self).inv(),
            *old(consumed_len) <= *final(consumed_len) <= consumed@.len(),
            *final(consumed_len) <= *old(consumed_len) + 1,
            final(self).symbol_bits == old(self).symbol_bits,
            final(self).symbol_data == old(self).symbol_data,
            final(self).output_term == old(self).output_term,
            final(self).queued_term == old(self).queued_term,
            final(self).pending_bits() <= old(self).pending_bits()
                + 8 * (*final(consumed_len) - *old(consumed_len)),
            starved ==> *final(self) == *old(self) && *final(consumed_len) == *old(consumed_len)
                && *final(consumed_len) == consumed@.len() && !final(self).queued_term
                && !final(self).symbol_term && final(self).output_bits == 0,
            old(self).symbol_term ==> *final(self) == *old(self)
                && *final(consumed_len) == *old(consumed_len) && !starved,
            !starved && !old(self).symbol_term ==> {
                // pulled a byte
                ||| *final(consumed_len) == *old(consumed_len) + 1
                    && final(self).symbol_term == old(self).symbol_term
                // extracted run bits from the residual byte
                ||| *final(consumed_len) == *old(consumed_len)
                    && final(self).output_bits < old(self).output_bits
                    && final(self).queued_done == old(self).queued_done
                    && final(self).symbol_term == old(self).symbol_term
                // the run ended: flag it for emission
                ||| *final(consumed_len) == *old(consumed_len)
                    && final(self).queued_done && !old(self).queued_done
                    && final(self).output_bits == old(self).output_bits
                    && final(self).queued_bits == old(self).queued_bits
                    && final(self).output_data == old(self).output_data
                    && final(self).queued_mode == !old(self).queued_mode
                    && final(self).symbol_term == old(self).symbol_term
                    && (final(self).output_bits > 0 || final(self).queued_bits > 0)
                    && (final(self).output_bits > 0 ==> (if final(self).queued_mode {
                        final(self).output_data >= 128
                    } else {
                        final(self).output_data < 128
                    }))
                // a completed run is already waiting: nothing to do
                ||| old(self).queued_done && *final(self) == *old(self)
                    && *final(consumed_len) == *old(consumed_len)
                // everything drained: inject the end-of-stream symbol
                ||| *final(consumed_len) == *old(consumed_len)
                    && final(self).symbol_term && !old(self).symbol_term
                    && final(self).queued_bits == 0 && final(self).output_bits == 0
                    && !final(self).queued_done
            },
            // exact case analysis over the starting state and the input
            !old(self).symbol_term && old(self).output_bits == 0
                && *old(consumed_len) < consumed@.len() ==> !starved
                && *final(consumed_len) == *old(consumed_len) + 1
                && (if old(self).queued_done {
                    *final(self) == (Encoder {
                        output_data: consumed@[*old(consumed_len) as int],
                        output_bits: 8,
                        ..*old(self)
                    })
                } else {
                    *final(self) == Self::scan_step(
                        *old(self),
                        consumed@[*old(consumed_len) as int],
                        8,
                    )
                }),
            !old(self).symbol_term && old(self).output_bits > 0 && !old(self).queued_done
                ==> !starved && *final(consumed_len) == *old(consumed_len)
                && *final(self) == Self::scan_step(
                    *old(self),
                    old(self).output_data,
                    old(self).output_bits as int,
                ),
            !old(self).symbol_term && old(self).output_bits == 0
                && *old(consumed_len) == consumed@.len() && old(self).queued_term ==> !starved
                && *final(consumed_len) == *old(consumed_len)
                && (if old(self).queued_done {
                    *final(self) == *old(self)
                } else if old(self).queued_bits > 0 {
                    *final(self) == Self::scan_step(*old(self), old(self).output_data, 0)
                } else {
                    *final(self) == (Encoder { symbol_term: true, ..*old(self) })
                }),
            !old(self).symbol_term && old(self).output_bits == 0
                && *old(consumed_len) == consumed@.len() && !old(self).queued_term ==> starved,
            old(self).output_bits > 0 && old(self).queued_done ==> !starved
                && *final(self) == *old(self) && *final(consumed_len) == *old(consumed_len),
    {
        if self.output_bits == 0 && !self.symbol_term {
            if *consumed_len < consumed.len() {
                self.output_data = consumed[*consumed_len];
                self.output_bits = 8;
                *consumed_len = *consumed_len + 1;
            } else if !self.queued_term {
                return true;
            }
        }

        if self.queued_done {
            return false;
        }

        if self.output_bits > 0 || self.queued_bits > 0 {
            let lead = if self.queued_mode {
                self.output_data.leading_ones()
            } else {
                self.output_data.leading_zeros()
            };
            let mut count = lead as usize;

            if self.output_bits < count {
                count = self.output_bits;
            }

            if count == 0 {
                proof {
                    let od = self.output_data;
                    vstd::std_specs::bits::axiom_u8_leading_ones(od);
                    vstd::std_specs::bits::axiom_u8_leading_zeros(od);
                    assert(((od >> 7u8) & 1u8 == 0u8) == (od < 128)) by (bit_vector);
                }
                self.queued_mode = !self.queued_mode;
                self.queued_done = true;
            } else {
                if count < 8 {
                    self.output_data = self.output_data << count;
                }

                self.output_bits = self.output_bits - count;
                self.queued_bits = self.queued_bits + count;
            }
        } else {
            self.symbol_term = true;
        }

        false
    }

    /// Emits the end-of-stream marker or the completed run as a symbol, then
    /// flushes whole symbol bytes to the output buffer. Returns true when out
    /// of output space.
    fn produce(&mut self, produced: &mut [u8], produced_len: &mut usize) -> (full: bool)
        requires
            old(self).inv(),
            *old(produced_len) <= old(produced)@.len(),
        ensures
            final(self).inv(),
            final(produced)@.len() == old(produced)@.len(),
            *old(produced_len) <= *final(produced_len) <= old(produced)@.len(),
            forall|i: int| 0 <= i < *old(produced_len) ==> final(produced)@[i] == old(produced)@[i],
            forall|i: int| *final(produced_len) <= i < old(produced)@.len()
                ==> final(produced)@[i] == old(produced)@[i],
            final(self).output_bits == old(self).output_bits,
            final(self).output_data == old(self).output_data,
            final(self).queued_mode == old(self).queued_mode,
            final(self).symbol_term == old(self).symbol_term,
            final(self).queued_term == old(self).queued_term,
            final(self).queued_bits <= old(self).queued_bits,
            old(self).output_term ==> *final(self) == *old(self)
                && *final(produced_len) == *old(produced_len) && !full,
            full ==> *final(produced_len) == old(produced)@.len() && !final(self).output_term
                && final(self).symbol_bits >= 8,
            !full ==> final(self).symbol_bits < 8,
            final(self).output_term ==> old(self).output_term || old(self).symbol_term,
            // no marker and no completed run: at most a leftover flush
            !old(self).symbol_term && !old(self).queued_done && !full ==> {
                &&& final(self).queued_done == old(self).queued_done
                &&& final(self).queued_bits == old(self).queued_bits
                &&& (old(self).symbol_bits < 8 ==> *final(self) == *old(self)
                    && *final(produced_len) == *old(produced_len))
                &&& (old(self).symbol_bits >= 8 ==> final(self).symbol_bits
                    < old(self).symbol_bits)
            },
            // leftover flush before a pending symbol fits
            old(self).symbol_bits > 8 && !full ==> {
                &&& final(self).queued_done == old(self).queued_done
                &&& final(self).queued_bits == old(self).queued_bits
                &&& final(self).symbol_bits < old(self).symbol_bits
            },
            // the marker drains fully or the buffer fills
            old(self).symbol_term && !old(self).output_term && old(self).symbol_bits <= 8
                && !full ==> final(self).output_term,
            // a completed run shrinks, or leaves entirely
            !old(self).symbol_term && old(self).queued_done && old(self).symbol_bits <= 8
                && !full ==> {
                ||| final(self).queued_bits < old(self).queued_bits
                ||| final(self).queued_bits == old(self).queued_bits
                    && old(self).queued_bits == 0 && !final(self).queued_done
                    && final(self).symbol_bits <= old(self).symbol_bits
            },
            // the exact outcome: the emitted word drains byte by byte into
            // the output buffer
            ({
                let (w, sbm) = Self::emission(*old(self));
                let flushed = *final(produced_len) - *old(produced_len);
                &&& 8 * flushed == sbm - final(self).symbol_bits
                &&& (forall|j: int| 0 <= j < flushed ==> final(produced)@[*old(produced_len) + j]
                    == Self::flushed_byte(w, j))
                &&& final(self).symbol_data == (if flushed < 4 {
                    w << ((8 * flushed) as u32)
                } else {
                    0u32
                })
            }),
            // exact run bookkeeping of the emission
            old(self).symbol_bits <= 8 && !old(self).symbol_term && !old(self).output_term
                && old(self).queued_done ==> (if crate::format::run_code_cont(
                old(self).queued_bits as int,
                !old(self).queued_mode,
            ) {
                final(self).queued_done && final(self).queued_bits == old(self).queued_bits
                    - cont_stride(!old(self).queued_mode)
            } else {
                !final(self).queued_done && final(self).queued_bits == 0
            }),
            !full ==> final(self).output_term == (old(self).output_term
                || (old(self).symbol_term && final(self).symbol_bits == 0)),
            !old(self).symbol_term && !old(self).queued_done ==> final(self).queued_bits
                == old(self).queued_bits && final(self).queued_done == old(self).queued_done,
            old(self).symbol_bits > 8 ==> final(self).queued_bits == old(self).queued_bits
                && final(self).queued_done == old(self).queued_done,
    {
        if self.symbol_bits <= 8 {
            if self.symbol_term && !self.output_term {
                proof {
                    let sd = self.symbol_data;
                    let sb = self.symbol_bits;
                    assert((sd | (0xFFFu32 << ((8 - sb) as u32))) << ((sb + 24) as u32) == 0
                        && ((0xFFFu32 << ((8 - sb) as u32)) >> ((8 - sb) as u32)) == 0xFFFu32)
                        by (bit_vector)
                        requires
                            sb <= 8,
                            (sd << (sb as u32)) == 0,
                    ;
                }
                self.symbol_data = self.symbol_data | (0xFFFu32 << (8 - self.symbol_bits));

                if self.symbol_bits == 0 {
                    self.symbol_bits = 24;
                } else {
                    self.symbol_bits = 32;
                }
            } else if self.queued_done {
                let run_value = !self.queued_mode;
                let c = run_code(self.queued_bits, run_value);

                proof {
                    let sd = self.symbol_data;
                    let sb = self.symbol_bits;
                    let pat = c.pattern;
                    let len = c.len;
                    assert(sb + len < 32 ==> ((sd | (pat << ((32 - len - sb)
                        as u32))) << ((sb + len) as u32)) == 0) by (bit_vector)
                        requires
                            sb <= 8,
                            1 <= len <= 24,
                            (sd << (sb as u32)) == 0,
                            pat < (1u32 << (len as u32)),
                    ;
                }

                self.symbol_data = self.symbol_data | (c.pattern << (32 - c.len - self.symbol_bits));
                self.symbol_bits = self.symbol_bits + c.len;

                if c.cont {
                    let stride = if run_value {
                        4106
                    } else {
                        12284
                    };
                    proof {
                        assert(stride == cont_stride(run_value));
                    }
                    self.queued_bits = self.queued_bits - stride;
                } else {
                    self.queued_bits = 0;
                    self.queued_done = false;
                }
            }
        }

        proof {
            assert((self.symbol_data, self.symbol_bits as int) == Self::emission(*old(self)));
            let sd = self.symbol_data;
            assert(sd << 0u32 == sd) by (bit_vector);
        }
        let ghost mid = *self;

        while self.symbol_bits >= 8
            invariant
                self.inv(),
                mid.inv(),
                old(self).inv(),
                mid.output_bits == old(self).output_bits,
                mid.output_data == old(self).output_data,
                mid.queued_mode == old(self).queued_mode,
                mid.symbol_term == old(self).symbol_term,
                mid.queued_term == old(self).queued_term,
                mid.output_term == old(self).output_term,
                mid.queued_bits <= old(self).queued_bits,
                old(self).output_term ==> mid == *old(self),
                !old(self).symbol_term && !old(self).queued_done ==> mid.queued_bits
                    == old(self).queued_bits && mid.queued_done == old(self).queued_done
                    && mid.symbol_bits == old(self).symbol_bits
                    && mid.symbol_data == old(self).symbol_data,
                old(self).symbol_bits > 8 ==> mid.queued_bits == old(self).queued_bits
                    && mid.queued_done == old(self).queued_done
                    && mid.symbol_bits == old(self).symbol_bits,
                old(self).symbol_term && !old(self).output_term && old(self).symbol_bits <= 8
                    ==> mid.symbol_bits % 8 == 0,
                !old(self).symbol_term && old(self).queued_done && old(self).symbol_bits <= 8
                    ==> (mid.queued_bits < old(self).queued_bits || (mid.queued_bits
                        == old(self).queued_bits && old(self).queued_bits == 0
                        && !mid.queued_done)),
                *old(produced_len) <= *produced_len <= produced@.len(),
                produced@.len() == old(produced)@.len(),
                forall|i: int| 0 <= i < *old(produced_len) ==> produced@[i] == old(produced)@[i],
                forall|i: int| *produced_len <= i < old(produced)@.len()
                    ==> produced@[i] == old(produced)@[i],
                self.output_bits == mid.output_bits,
                self.output_data == mid.output_data,
                self.queued_mode == mid.queued_mode,
                self.symbol_term == mid.symbol_term,
                self.queued_term == mid.queued_term,
                self.output_term == mid.output_term,
                self.queued_done == mid.queued_done,
                self.queued_bits == mid.queued_bits,
                self.symbol_bits <= mid.symbol_bits,
                self.symbol_bits % 8 == mid.symbol_bits % 8,
                self.symbol_bits == mid.symbol_bits ==> self.symbol_data == mid.symbol_data
                    && *produced_len == *old(produced_len),
                (mid.symbol_data, mid.symbol_bits as int) == Self::emission(*old(self)),
                8 * (*produced_len - *old(produced_len)) == mid.symbol_bits - self.symbol_bits,
                forall|j: int| 0 <= j < *produced_len - *old(produced_len)
                    ==> produced@[*old(produced_len) + j] == Self::flushed_byte(mid.symbol_data, j),
                self.symbol_data == (if *produced_len - *old(produced_len) < 4 {
                    mid.symbol_data << ((8 * (*produced_len - *old(produced_len))) as u32)
                } else {
                    0u32
                }),
                old(self).symbol_bits <= 8 && !old(self).symbol_term && !old(self).output_term
                    && old(self).queued_done ==> (if crate::format::run_code_cont(
                    old(self).queued_bits as int,
                    !old(self).queued_mode,
                ) {
                    mid.queued_done && mid.queued_bits == old(self).queued_bits
                        - cont_stride(!old(self).queued_mode)
                } else {
                    !mid.queued_done && mid.queued_bits == 0
                }),
            decreases self.symbol_bits,
        {
            if *produced_len < produced.len() {
                proof {
                    let sd = self.symbol_data;
                    let sb = self.symbol_bits;
                    assert((sd >> 24) <= 255 && (sb < 32 ==> ((sd << 8) << ((sb - 8) as u32))
                        == (sd << (sb as u32)))) by (bit_vector)
                        requires
                            8 <= sb <= 32,
                    ;
                    assert(((sd << 8) << ((32 - 8) as u32)) == 0) by (bit_vector);
                    let wm = mid.symbol_data;
                    let t = (*produced_len - *old(produced_len)) as u32;
                    assert(t <= 3 ==> ((wm << ((8 * t) as u32)) >> 24) as u8
                        == ((wm >> ((24 - 8 * t) as u32)) as u8)) by (bit_vector);
                    assert(t <= 2 ==> ((wm << ((8 * t) as u32)) << 8)
                        == (wm << ((8 * (t + 1)) as u32))) by (bit_vector);
                    assert(((wm << ((8 * 3u32) as u32)) << 8) == 0) by (bit_vector);
                }
                let byte = (self.symbol_data >> 24) as u8;
                produced[*produced_len] = byte;

                self.symbol_data = self.symbol_data << 8;
                self.symbol_bits = self.symbol_bits - 8;
                *produced_len = *produced_len + 1;
            } else {
                return true;
            }
        }

        if self.symbol_term && self.symbol_bits == 0 {
            self.output_term = true;
        }

        false
    }
}

impl Default for Encoder {
    fn default() -> (e: Self)
        ensures
            e.is_initial(),
            e.inv(),
    {
        Self::new()
    }
}

/// Errors that may occur while encoding a slice.
#[derive(Clone, Copy, Debug, PartialEq, Eq, Structural)]
pub enum EncodeSliceError {
    /// More output space was required for encoding.
    NeedsMoreSpace,
}

/// Convenient helper function to directly encode arbitrary data into a
/// destination byte slice.
pub fn encode_into_slice(input: &[u8], output: &mut [u8]) -> (r: Result<usize, EncodeSliceError>)
    requires
        8 * input@.len() <= usize::MAX,
    ensures
        final(output)@.len() == old(output)@.len(),
        r matches Ok(n) ==> n <= old(output)@.len() && forall|i: int| n <= i < old(output)@.len()
            ==> final(output)@[i] == old(output)@[i],
        exists|f: nat| (match #[trigger] Encoder::run(
            Encoder::start().with_end(),
            input@,
            0,
            old(output)@,
            0,
            f,
        ) {
            Some(o) => final(output)@ == o.2 && r == Encoder::slice_outcome(o)
                && !(o.3 is CanConsume),
            None => false,
        }),
        input@.len() == 0 && old(output)@.len() >= 3 ==> r == Ok::<usize, EncodeSliceError>(3usize) && final(output)@
            =~= old(output)@.update(0, 0x00u8).update(1, 0x0Fu8).update(2, 0xFFu8),
{
    let mut encoder = Encoder::new();
    encoder.set_consumed_bytes_end();

    let (_, produced_len, state) = encoder.step(input, output);

    proof {
        if input@.len() == 0 && old(output)@.len() >= 3 {
            let f = choose|f: nat|
                Encoder::run(Encoder::start().with_end(), input@, 0, old(output)@, 0, f)
                    == Some((0int, produced_len as int, output@, state, encoder));
            assert(input@ =~= Seq::<u8>::empty());
            Encoder::lemma_encode_empty(old(output)@);
            if f < 1 {
                assert(false);
            } else {
                Encoder::lemma_run_fuel_monotonic(
                    Encoder::start().with_end(),
                    input@,
                    0,
                    old(output)@,
                    0,
                    1,
                    f,
                );
            }
        }
    }

    match state {
        EncoderState::CanConsume => {
            // the whole input stands ready together with the end-of-input
            // signal, so the encoder can never be starved
            proof {
                assert(false);
            }
            Err(EncodeSliceError::NeedsMoreSpace)
        },
        EncoderState::CanProduce => Err(EncodeSliceError::NeedsMoreSpace),
        EncoderState::Terminated => Ok(produced_len),
    }
}

} // verus!
