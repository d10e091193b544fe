//! Bookkeeping of the setup helper: capability sets, shell quoting of the
//! emitted environment, and `SCM_RIGHTS` control-message sizing.

use vstd::prelude::*;
use crate::text::push_char;
use vstd::string::StrSliceExecFns;

verus! {

/// Linux capability number of `CAP_NET_ADMIN`.
pub const CAP_NET_ADMIN: usize = 12;

/// One 32-bit word of each of the three capability sets (`capget` layout).
#[derive(Clone, Copy, Debug, PartialEq, Eq, Structural)]
pub struct CapData {
    pub effective: u32,
    pub permitted: u32,
    pub inheritable: u32,
}

/// The bit of `capability` within its 32-bit word.
pub open spec fn cap_bit(capability: usize) -> u32 {
    1u32 << ((capability % 32) as u32)
}

/// Whether `capability` is raised in any of the three sets.
pub open spec fn capability_present_spec(data: [CapData; 2], capability: usize) -> bool {
    let word = data[(capability / 32) as int];
    word.effective & cap_bit(capability) != 0 || word.permitted & cap_bit(capability) != 0
        || word.inheritable & cap_bit(capability) != 0
}

/// Lowers `capability` in the effective, permitted, and inheritable sets,
/// leaving every other bit untouched.
pub fn clear_capability(data: &mut [CapData; 2], capability: usize)
    requires
        capability < 64,
    ensures
        ({
            let i = (capability / 32) as int;
            let mask = !cap_bit(capability);
            &&& final(data)@[i].effective == old(data)@[i].effective & mask
            &&& final(data)@[i].permitted == old(data)@[i].permitted & mask
            &&& final(data)@[i].inheritable == old(data)@[i].inheritable & mask
            &&& final(data)@[1 - i] == old(data)@[1 - i]
        }),
{
    let index = capability / 32;
    let shift = (capability % 32) as u32;
    let mask = !(1u32 << shift);
    let word = data[index];
    data[index] = CapData {
        effective: word.effective & mask,
        permitted: word.permitted & mask,
        inheritable: word.inheritable & mask,
    };
}

/// Whether `capability` is raised in any of the three sets.
pub fn capability_present(data: &[CapData; 2], capability: usize) -> (present: bool)
    requires
        capability < 64,
    ensures
        present == capability_present_spec(*data, capability),
{
    let index = capability / 32;
    let shift = (capability % 32) as u32;
    let mask = 1u32 << shift;
    let word = data[index];
    word.effective & mask != 0 || word.permitted & mask != 0 || word.inheritable & mask != 0
}

/// After `clear_capability`, the capability is present in none of the sets.
pub proof fn lemma_cleared_capability_absent(before: [CapData; 2], after: [CapData; 2], capability: usize)
    requires
        capability < 64,
        ({
            let i = (capability / 32) as int;
            let mask = !cap_bit(capability);
            &&& after@[i].effective == before@[i].effective & mask
            &&& after@[i].permitted == before@[i].permitted & mask
            &&& after@[i].inheritable == before@[i].inheritable & mask
        }),
    ensures
        !capability_present_spec(after, capability),
{
    let i = (capability / 32) as int;
    let b = cap_bit(capability);
    let e = before@[i].effective;
    let p = before@[i].permitted;
    let h = before@[i].inheritable;
    assert((e & !b) & b == 0 && (p & !b) & b == 0 && (h & !b) & b == 0) by (bit_vector);
}

// ---------------------------------------------------------------------------
// Dropping CAP_NET_ADMIN before the target runs.

/// Why dropping `CAP_NET_ADMIN` failed.
#[derive(Clone, Copy, Debug, PartialEq, Eq, Structural)]
pub enum CapDropError {
    /// A `capget`/`capset` call failed with this `errno`.
    Os(i32),
    /// The sets read back after `capset` still hold the capability.
    StillPresent,
}

/// Where the drop stands: which system call's result it waits for, with the
/// sets it wrote or verified.
#[derive(Clone, Copy, Debug, PartialEq, Eq)]
pub enum CapDropState {
    Start,
    AwaitRead,
    AwaitWrite([CapData; 2]),
    AwaitVerify,
    AwaitLower([CapData; 2]),
    Done,
}

/// What the last system call reported.
#[derive(Clone, Copy, Debug, PartialEq, Eq)]
pub enum CapDropEvent {
    Begin,
    Read([CapData; 2]),
    Written,
    Lowered,
    Failed(i32),
}

/// The next system call to make, or the end of the drop.
#[derive(Clone, Copy, Debug, PartialEq, Eq)]
pub enum CapDropAction {
    /// Read the three capability sets of this process.
    Capget,
    /// Write these capability sets.
    Capset([CapData; 2]),
    /// Lower the capability from the bounding and ambient sets; both calls
    /// are best effort and their results are not looked at.
    LowerBoundingAndAmbient,
    Finish(Result<(), CapDropError>),
}

/// The sets in `written` or `verified` never hold `CAP_NET_ADMIN`.
pub open spec fn cap_drop_wf(state: CapDropState) -> bool {
    match state {
        CapDropState::AwaitWrite(written) => !capability_present_spec(written, CAP_NET_ADMIN),
        CapDropState::AwaitLower(verified) => !capability_present_spec(verified, CAP_NET_ADMIN),
        _ => true,
    }
}

/// Whether `event` is a result the drop can receive in `state`.
pub open spec fn cap_drop_expects(state: CapDropState, event: CapDropEvent) -> bool {
    match state {
        CapDropState::Start => event is Begin,
        CapDropState::AwaitRead => event is Read || event is Failed,
        CapDropState::AwaitWrite(_) => event is Written || event is Failed,
        CapDropState::AwaitVerify => event is Read || event is Failed,
        CapDropState::AwaitLower(_) => event is Lowered,
        CapDropState::Done => false,
    }
}

/// The sets read with `CAP_NET_ADMIN` lowered in all three sets.
pub open spec fn cleared_sets(data: [CapData; 2]) -> Seq<CapData> {
    let i = (CAP_NET_ADMIN / 32) as int;
    let mask = !cap_bit(CAP_NET_ADMIN);
    data@.update(
        i,
        CapData {
            effective: data[i].effective & mask,
            permitted: data[i].permitted & mask,
            inheritable: data[i].inheritable & mask,
        },
    )
}

/// One step of dropping `CAP_NET_ADMIN`: read the capability sets, write
/// them back with the capability cleared, read them again and fail closed
/// if the capability is still there, then lower it from the bounding and
/// ambient sets on a best-effort basis. Any failed `capget` or `capset`
/// ends the drop with that error.
pub fn drop_cap_net_admin(state: CapDropState, event: CapDropEvent) -> (step: (
    CapDropState,
    CapDropAction,
))
    requires
        cap_drop_wf(state),
        cap_drop_expects(state, event),
    ensures
        cap_drop_wf(step.0),
        step.1 is Finish <==> step.0 is Done,
        step.1 == CapDropAction::Finish(Ok(())) ==> state is AwaitLower,
        step.1 is Capset ==> step.1 == CapDropAction::Capset(step.0->AwaitWrite_0),
        match (state, event) {
            (CapDropState::Start, _) => step == (CapDropState::AwaitRead, CapDropAction::Capget),
            (CapDropState::AwaitRead, CapDropEvent::Read(data)) => {
                &&& step.0 matches CapDropState::AwaitWrite(written)
                &&& written@ == cleared_sets(data)
                &&& step.1 == CapDropAction::Capset(written)
            },
            (CapDropState::AwaitWrite(_), CapDropEvent::Written) => step == (
                CapDropState::AwaitVerify,
                CapDropAction::Capget,
            ),
            (CapDropState::AwaitVerify, CapDropEvent::Read(data)) => if capability_present_spec(
                data,
                CAP_NET_ADMIN,
            ) {
                step == (CapDropState::Done, CapDropAction::Finish(Err(CapDropError::StillPresent)))
            } else {
                step == (CapDropState::AwaitLower(data), CapDropAction::LowerBoundingAndAmbient)
            },
            (CapDropState::AwaitLower(_), _) => step == (
                CapDropState::Done,
                CapDropAction::Finish(Ok(())),
            ),
            (_, CapDropEvent::Failed(errno)) => step == (
                CapDropState::Done,
                CapDropAction::Finish(Err(CapDropError::Os(errno))),
            ),
            _ => false,
        },
{
    match (state, event) {
        (CapDropState::Start, _) => (CapDropState::AwaitRead, CapDropAction::Capget),
        (CapDropState::AwaitRead, CapDropEvent::Read(data)) => {
            let mut cleared = data;
            clear_capability(&mut cleared, CAP_NET_ADMIN);
            proof {
                lemma_cleared_capability_absent(data, cleared, CAP_NET_ADMIN);
                assert(cleared@ =~= cleared_sets(data));
            }
            (CapDropState::AwaitWrite(cleared), CapDropAction::Capset(cleared))
        },
        (CapDropState::AwaitWrite(_), CapDropEvent::Written) => {
            (CapDropState::AwaitVerify, CapDropAction::Capget)
        },
        (CapDropState::AwaitVerify, CapDropEvent::Read(data)) => {
            if capability_present(&data, CAP_NET_ADMIN) {
                (CapDropState::Done, CapDropAction::Finish(Err(CapDropError::StillPresent)))
            } else {
                (CapDropState::AwaitLower(data), CapDropAction::LowerBoundingAndAmbient)
            }
        },
        (CapDropState::AwaitLower(_), _) => (CapDropState::Done, CapDropAction::Finish(Ok(()))),
        (_, CapDropEvent::Failed(errno)) => {
            (CapDropState::Done, CapDropAction::Finish(Err(CapDropError::Os(errno))))
        },
        _ => (CapDropState::Done, CapDropAction::Finish(Err(CapDropError::StillPresent))),
    }
}

// ---------------------------------------------------------------------------
// Shell quoting.

/// `s` with every single quote replaced by `'\''`.
pub open spec fn escape_single_quotes(s: Seq<char>) -> Seq<char>
    decreases s.len(),
{
    if s.len() == 0 {
        Seq::empty()
    } else {
        let rest = escape_single_quotes(s.drop_last());
        if s.last() == '\'' {
            rest + seq!['\'', '\\', '\'', '\'']
        } else {
            rest.push(s.last())
        }
    }
}

/// POSIX single-quoted form of `s`.
pub open spec fn shell_quote_spec(s: Seq<char>) -> Seq<char> {
    seq!['\''] + escape_single_quotes(s) + seq!['\'']
}

/// Quotes `value` for a POSIX shell: wraps it in single quotes and writes
/// each embedded single quote as `'\''`.
pub fn shell_quote(value: &str) -> (quoted: String)
    ensures
        quoted@ == shell_quote_spec(value@),
{
    let len = value.unicode_len();
    let mut quoted = String::new();
    push_char(&mut quoted, '\'');
    let mut i: usize = 0;
    while i < len
        invariant
            len == value@.len(),
            i <= len,
            quoted@ == seq!['\''] + escape_single_quotes(value@.subrange(0, i as int)),
        decreases len - i,
    {
        let c = value.get_char(i);
        proof {
            let next = value@.subrange(0, i + 1);
            assert(next.drop_last() =~= value@.subrange(0, i as int));
            assert(next.last() == c);
        }
        if c == '\'' {
            push_char(&mut quoted, '\'');
            push_char(&mut quoted, '\\');
            push_char(&mut quoted, '\'');
            push_char(&mut quoted, '\'');
            proof {
                assert(quoted@ =~= seq!['\''] + escape_single_quotes(value@.subrange(0, i + 1)));
            }
        } else {
            push_char(&mut quoted, c);
            proof {
                assert(quoted@ =~= seq!['\''] + escape_single_quotes(value@.subrange(0, i + 1)));
            }
        }
        i = i + 1;
    }
    proof {
        assert(value@.subrange(0, len as int) =~= value@);
    }
    push_char(&mut quoted, '\'');
    quoted
}

// ---------------------------------------------------------------------------
// Control-message sizing for fd handoff.

/// `len` rounded up to a multiple of `align`.
pub open spec fn round_up(len: int, align: int) -> int {
    ((len + align - 1) / align) * align
}

/// Rounds `len` up to the alignment of `usize` (the `CMSG_ALIGN` macro).
pub fn cmsg_align(len: usize) -> (aligned: usize)
    requires
        len + 7 <= usize::MAX,
    ensures
        aligned == round_up(len as int, vstd::layout::size_of::<usize>() as int),
        aligned >= len,
{
    broadcast use vstd::layout::layout_of_primitives;

    let align = core::mem::size_of::<usize>();
    assert(align == 4 || align == 8) by {
        assert(usize::BITS == 32 || usize::BITS == 64);
    }
    let mask = align - 1;
    let sum = len + mask;
    let aligned = sum & !mask;
    if align == 4 {
        assert(sum & !3usize == (sum / 4) * 4) by (bit_vector);
    } else {
        assert(sum & !7usize == (sum / 8) * 8) by (bit_vector);
    }
    assert(round_up(len as int, align as int) >= len) by (nonlinear_arith)
        requires
            align == 4 || align == 8,
    ;
    aligned
}

/// Length of a control message with `data_len` bytes of data behind a
/// header of `header_len` bytes (the `CMSG_LEN` macro).
pub fn cmsg_len(header_len: usize, data_len: usize) -> (len: usize)
    requires
        header_len + 7 <= usize::MAX,
        round_up(header_len as int, vstd::layout::size_of::<usize>() as int) + data_len <= usize::MAX,
    ensures
        len == round_up(header_len as int, vstd::layout::size_of::<usize>() as int) + data_len,
{
    cmsg_align(header_len) + data_len
}

/// Space that a control message with `data_len` bytes of data occupies in
/// the control buffer (the `CMSG_SPACE` macro).
pub fn cmsg_space(header_len: usize, data_len: usize) -> (space: usize)
    requires
        header_len + 7 <= usize::MAX,
        data_len + 7 <= usize::MAX,
        round_up(header_len as int, vstd::layout::size_of::<usize>() as int) + round_up(
            data_len as int,
            vstd::layout::size_of::<usize>() as int,
        ) <= usize::MAX,
    ensures
        space == round_up(header_len as int, vstd::layout::size_of::<usize>() as int) + round_up(
            data_len as int,
            vstd::layout::size_of::<usize>() as int,
        ),
{
    cmsg_align(header_len) + cmsg_align(data_len)
}

} // verus!
