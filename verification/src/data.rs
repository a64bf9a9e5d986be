//! Trajectory data: agents checked on creation, and the frames in which
//! values are written one after another.

use crate::types::AgentView;
use crate::utils::{
    check_num, check_vec, num_verdict, vec_verdict, NumRange, OutOfRange, VecError,
};
use vstd::bytes::{
    lemma_auto_spec_u32_to_from_le_bytes, spec_u32_from_le_bytes, spec_u32_to_le_bytes,
    u32_from_le_bytes, u32_to_le_bytes,
};
use vstd::prelude::*;
use vstd::slice::slice_subrange;

verus! {

/// What makes an agent invalid.
#[derive(Clone, Copy, Debug, PartialEq, Eq, Structural)]
pub enum AgtError {
    /// Invalid phenotype.
    Phe(OutOfRange),
    /// Invalid phenotype probabilities.
    ProbPhe(VecError),
}

/// What [`AgtData::new`] decides.
pub open spec fn agt_verdict(phe: usize, prob_phe: Seq<u64>, n_phe: usize) -> Option<AgtError> {
    let in_range = num_verdict(phe as u64, NumRange::half_open(0, n_phe as u64));
    let normalized = vec_verdict(prob_phe, n_phe, true);
    if in_range is Some {
        Some(AgtError::Phe(in_range->0))
    } else if normalized is Some {
        Some(AgtError::ProbPhe(normalized->0))
    } else {
        None
    }
}

/// An agent as it is written to a trajectory: checked when it is made.
#[derive(Debug, PartialEq, Eq)]
pub struct AgtData {
    phe: usize,
    prob_phe: Vec<u64>,
}

impl View for AgtData {
    type V = AgentView;

    closed spec fn view(&self) -> AgentView {
        AgentView { phe: self.phe as nat, strat: self.prob_phe@ }
    }
}

impl AgtData {
    /// Create an agent of a model with `n_phe` phenotypes: the phenotype
    /// must be one of them, and the probabilities a probability vector over
    /// them.
    pub fn new(phe: usize, prob_phe: Vec<u64>, n_phe: usize) -> (r: Result<Self, AgtError>)
        ensures
            match r {
                Ok(agt) => {
                    &&& agt_verdict(phe, prob_phe@, n_phe) is None
                    &&& agt@ == (AgentView { phe: phe as nat, strat: prob_phe@ })
                    &&& agt@.valid(n_phe as nat)
                },
                Err(e) => agt_verdict(phe, prob_phe@, n_phe) == Some(e),
            },
    {
        if let Err(e) = check_num(phe as u64, NumRange::half_open(0, n_phe as u64)) {
            return Err(AgtError::Phe(e));
        }
        if let Err(e) = check_vec(&prob_phe, n_phe, true) {
            return Err(AgtError::ProbPhe(e));
        }
        Ok(Self { phe, prob_phe })
    }

    /// The phenotype of the agent.
    pub fn phe(&self) -> (r: usize)
        ensures
            r == self@.phe,
    {
        self.phe
    }

    /// The probabilities of the phenotypes of the agent's offspring.
    pub fn prob_phe(&self) -> (r: &Vec<u64>)
        ensures
            r@ == self@.strat,
    {
        &self.prob_phe
    }
}

/// One frame of a trajectory.
#[derive(Debug, PartialEq, Eq)]
pub struct SimData {
    pub env: usize,
    pub agt_vec: Vec<AgtData>,
    pub n_agt_diff: i32,
}

/// The number of bytes that give the length of a frame's value.
pub const PREFIX_LEN: usize = 4;

/// Why no frame was read or written.
#[derive(Clone, Copy, Debug, PartialEq, Eq, Structural)]
pub enum FrameError {
    /// Nothing is left to read: the frames have come to their end.
    EndOfStream,
    /// The bytes end within the length of a frame.
    TruncatedPrefix { found: usize },
    /// The bytes end within the value of a frame.
    TruncatedValue { expected: u32, found: usize },
    /// The value is too long for its length to be written.
    TooLong { len: usize },
}

/// The frame of a value: the length of the value, as four bytes with the
/// lowest first, and then the value.
pub open spec fn frame(value: Seq<u8>) -> Seq<u8> {
    spec_u32_to_le_bytes(value.len() as u32) + value
}

/// What is read from `bytes` at `pos`: the value of the frame that starts
/// there and the place where the next frame starts, or the reason why there
/// is no whole frame.
pub open spec fn frame_at(bytes: Seq<u8>, pos: int) -> Result<(Seq<u8>, int), FrameError> {
    let left = bytes.len() - pos;
    let len = spec_u32_from_le_bytes(bytes.subrange(pos, pos + PREFIX_LEN));
    if left <= 0 {
        Err(FrameError::EndOfStream)
    } else if left < PREFIX_LEN {
        Err(FrameError::TruncatedPrefix { found: left as usize })
    } else if left - PREFIX_LEN < len {
        Err(FrameError::TruncatedValue { expected: len, found: (left - PREFIX_LEN) as usize })
    } else {
        Ok((bytes.subrange(pos + PREFIX_LEN, pos + PREFIX_LEN + len), pos + PREFIX_LEN + len))
    }
}

/// A value that was written in a frame is read back from it, whatever
/// stands before and after the frame, and the next frame starts where this
/// one ends.
pub proof fn lemma_frame_round_trip(before: Seq<u8>, value: Seq<u8>, after: Seq<u8>)
    requires
        value.len() <= u32::MAX,
    ensures
        frame_at(before + frame(value) + after, before.len() as int) == Ok::<
            (Seq<u8>, int),
            FrameError,
        >((value, before.len() + PREFIX_LEN + value.len())),
{
    lemma_auto_spec_u32_to_from_le_bytes();
    let bytes = before + frame(value) + after;
    let pos = before.len() as int;
    let prefix = spec_u32_to_le_bytes(value.len() as u32);
    assert(prefix.len() == 4);
    assert(bytes.subrange(pos, pos + PREFIX_LEN) =~= prefix);
    assert(bytes.subrange(pos + PREFIX_LEN, pos + PREFIX_LEN + value.len()) =~= value);
}

/// Where the bytes end with a frame, nothing is left to read after it.
pub proof fn lemma_frame_then_end(before: Seq<u8>, value: Seq<u8>)
    requires
        value.len() <= u32::MAX,
    ensures
        frame_at(before + frame(value), before.len() + PREFIX_LEN + value.len()) == Err::<
            (Seq<u8>, int),
            FrameError,
        >(FrameError::EndOfStream),
{
    lemma_auto_spec_u32_to_from_le_bytes();
}

impl SimData {
    /// Create the data of a run in environment `env`, with room for
    /// `n_agt_init` agents.
    pub fn new(env: usize, n_agt_init: usize) -> (r: Self)
        ensures
            r.env == env,
            r.agt_vec@.len() == 0,
            r.n_agt_diff == 0,
    {
        Self { env, agt_vec: Vec::with_capacity(n_agt_init), n_agt_diff: 0 }
    }

    /// Read the frame that starts at `pos`: its value and the place where
    /// the next frame starts. At the end of the bytes there is no frame to
    /// read, which is no fault of the bytes; bytes that end within a frame
    /// are at fault.
    pub fn read_frame(reader: &Vec<u8>, pos: usize) -> (r: Result<(Vec<u8>, usize), FrameError>)
        ensures
            match r {
                Ok((value, next)) => frame_at(reader@, pos as int) == Ok::<
                    (Seq<u8>, int),
                    FrameError,
                >((value@, next as int)),
                Err(e) => frame_at(reader@, pos as int) == Err::<(Seq<u8>, int), FrameError>(e),
            },
    {
        let total = reader.len();
        if pos >= total {
            return Err(FrameError::EndOfStream);
        }
        let left = total - pos;
        if left < PREFIX_LEN {
            return Err(FrameError::TruncatedPrefix { found: left });
        }
        let len_bytes = slice_subrange(reader.as_slice(), pos, pos + PREFIX_LEN);
        let len = u32_from_le_bytes(len_bytes);
        let start = pos + PREFIX_LEN;
        if ((left - PREFIX_LEN) as u64) < len as u64 {
            return Err(FrameError::TruncatedValue { expected: len, found: left - PREFIX_LEN });
        }
        let end = start + len as usize;
        let mut value: Vec<u8> = Vec::with_capacity(len as usize);
        let mut i: usize = start;
        while i < end
            invariant
                start <= i <= end <= reader@.len(),
                value@ == reader@.subrange(start as int, i as int),
            decreases end - i,
        {
            value.push(reader[i]);
            assert(reader@.subrange(start as int, i + 1) =~= reader@.subrange(
                start as int,
                i as int,
            ).push(reader@[i as int]));
            i = i + 1;
        }
        Ok((value, end))
    }

    /// Write a value as a frame at the end of the bytes written so far.
    pub fn write_frame(value: &Vec<u8>, writer: &mut Vec<u8>) -> (r: Result<(), FrameError>)
        ensures
            match r {
                Ok(()) => value@.len() <= u32::MAX && final(writer)@ == old(writer)@ + frame(
                    value@,
                ),
                Err(e) => {
                    &&& value@.len() > u32::MAX
                    &&& e == (FrameError::TooLong { len: value@.len() as usize })
                    &&& final(writer)@ == old(writer)@
                },
            },
    {
        let len = value.len();
        if len > u32::MAX as usize {
            return Err(FrameError::TooLong { len });
        }
        let ghost start = writer@;
        let mut prefix = u32_to_le_bytes(len as u32);
        writer.append(&mut prefix);
        let mut i: usize = 0;
        while i < len
            invariant
                i <= len == value@.len(),
                writer@ == start + spec_u32_to_le_bytes(len as u32) + value@.take(i as int),
            decreases len - i,
        {
            writer.push(value[i]);
            assert(value@.take(i + 1) =~= value@.take(i as int).push(value@[i as int]));
            i = i + 1;
        }
        assert(value@.take(len as int) =~= value@);
        assert(writer@ =~= start + frame(value@));
        Ok(())
    }
}

} // verus!
