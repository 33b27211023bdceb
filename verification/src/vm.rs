//! Virtual memory sizes, and the layout of a mirrored memory region.
//!
//! A mirrored region of `size` bytes is mapped twice, back to back, so that
//! its first `size` bytes are also reachable through the second `size`. The
//! mapping itself is the system's work; here is what decides it.

use vstd::prelude::*;

verus! {

/// The system's page size, by `nix::unistd::sysconf` with `PAGE_SIZE`.
///
/// Trusted for nothing: the value depends on the machine, and a failed or
/// unanswered query comes back as `None`.
#[verifier::external_body]
fn sysconf_page_size() -> (r: Option<usize>) {
    match nix::unistd::sysconf(nix::unistd::SysconfVar::PAGE_SIZE) {
        Ok(Some(size)) => Some(size as usize),
        Ok(None) => None,
        Err(_) => None,
    }
}

/// Returns the system's page size, or `None` where the system does not
/// report one.
pub fn page_size() -> (r: Option<usize>) {
    sysconf_page_size()
}

/// Returns the system's allocation size: the page size.
pub fn allocation_size() -> (r: Option<usize>) {
    page_size()
}

/// The layout of a mirrored region.
#[derive(Copy, Clone, Debug, PartialEq, Eq, Structural)]
pub enum MirroredLayout {
    /// Nothing is mapped: the region is empty.
    Empty,
    /// `size` bytes are mapped twice, over `double_size` bytes.
    Mirrored {
        /// The size of the region.
        size: usize,
        /// The size of the two copies together.
        double_size: usize,
    },
}

/// Lays out a mirrored region of `size` bytes in allocation units of
/// `allocation_size` bytes.
///
/// A region that is not empty must be a whole number of allocation units,
/// and two copies of it must fit in the address space.
pub fn mirrored_layout(size: usize, allocation_size: usize) -> (r: MirroredLayout)
    requires
        allocation_size > 0,
        size == 0 || (size % allocation_size == 0 && 2 * size <= usize::MAX),
    ensures
        size == 0 ==> r == MirroredLayout::Empty,
        size > 0 ==> r == (MirroredLayout::Mirrored { size, double_size: (2 * size) as usize }),
{
    if size == 0 {
        MirroredLayout::Empty
    } else {
        MirroredLayout::Mirrored { size, double_size: 2 * size }
    }
}

/// What one attempt to create a named shared memory file came to.
#[derive(Copy, Clone, Debug, PartialEq, Eq, Structural)]
pub enum OpenOutcome {
    /// The file was created.
    Opened,
    /// A file of that name exists already.
    AlreadyExists,
    /// The system refused for another reason, with this error number.
    Failed(i32),
}

/// What to do after an attempt to create a named shared memory file.
#[derive(Copy, Clone, Debug, PartialEq, Eq, Structural)]
pub enum OpenStep {
    /// The file is open.
    Done,
    /// Try again under another name.
    Retry,
    /// Give up: every name tried was taken.
    FailExists,
    /// Give up with this error number.
    Fail(i32),
}

/// The number of names tried before giving up.
pub const OPEN_ATTEMPTS: u32 = 4;

/// Decides what follows attempt number `attempt` (counting from zero) to
/// create a named shared memory file: a taken name is retried under another
/// name until every attempt is spent; any other failure ends the search.
pub fn shm_open_step(attempt: u32, outcome: OpenOutcome) -> (r: OpenStep)
    requires
        attempt < OPEN_ATTEMPTS,
    ensures
        outcome == OpenOutcome::Opened ==> r == OpenStep::Done,
        outcome == OpenOutcome::AlreadyExists && attempt + 1 < OPEN_ATTEMPTS ==> r == OpenStep::Retry,
        outcome == OpenOutcome::AlreadyExists && attempt + 1 == OPEN_ATTEMPTS ==> r == OpenStep::FailExists,
        forall|e: i32| outcome == OpenOutcome::Failed(e) ==> r == OpenStep::Fail(e),
{
    match outcome {
        OpenOutcome::Opened => OpenStep::Done,
        OpenOutcome::AlreadyExists => {
            if attempt + 1 < OPEN_ATTEMPTS {
                OpenStep::Retry
            } else {
                OpenStep::FailExists
            }
        },
        OpenOutcome::Failed(e) => OpenStep::Fail(e),
    }
}

/// The character shown for the digit of `n` (below 10000) worth `place`,
/// right-aligned in four columns: a space where `n` has no such digit.
pub open spec fn name_digit(n: nat, place: nat) -> u8 {
    if place == 1 || n >= place {
        (48 + (n / place) % 10) as u8
    } else {
        32u8
    }
}

/// The name of a shared memory file for a clock reading of `nanos`
/// nanoseconds: `/shm-vrb-` and then `nanos % 10000`, right-aligned in four
/// columns.
pub open spec fn shm_name_spec(nanos: nat) -> Seq<u8> {
    let n = nanos % 10000;
    seq![47u8, 115u8, 104u8, 109u8, 45u8, 118u8, 114u8, 98u8, 45u8] + seq![
        name_digit(n, 1000),
        name_digit(n, 100),
        name_digit(n, 10),
        name_digit(n, 1),
    ]
}

/// The character for the digit of `n` worth `place`, or a space.
fn name_digit_exec(n: u32, place: u32) -> (r: u8)
    requires
        n < 10000,
        place == 1 || place == 10 || place == 100 || place == 1000,
    ensures
        r == name_digit(n as nat, place as nat),
{
    if place == 1 || n >= place {
        48 + ((n / place) % 10) as u8
    } else {
        32
    }
}

/// Returns the name of a shared memory file for a clock reading of `nanos`
/// nanoseconds (see [`shm_name_spec`]).
pub fn shm_name(nanos: u32) -> (r: Vec<u8>)
    ensures
        r@ == shm_name_spec(nanos as nat),
{
    let n = nanos % 10000;
    let mut name: Vec<u8> = vec![47u8, 115u8, 104u8, 109u8, 45u8, 118u8, 114u8, 98u8, 45u8];
    name.push(name_digit_exec(n, 1000));
    name.push(name_digit_exec(n, 100));
    name.push(name_digit_exec(n, 10));
    name.push(name_digit_exec(n, 1));
    assert(name@ =~= shm_name_spec(nanos as nat));
    name
}

/// What to do after an attempt to map both copies of a mirrored region.
#[derive(Copy, Clone, Debug, PartialEq, Eq, Structural)]
pub enum MapStep {
    /// Both copies are mapped.
    Done,
    /// Reserve another address range and try again.
    Retry,
    /// Give up with the mapping's error.
    Fail,
}

/// The number of address ranges tried before giving up on mapping a
/// mirrored region.
pub const MAP_ATTEMPTS: u32 = 5;

/// Decides what follows attempt number `attempt` (counting from zero) to map
/// a mirrored region into a reserved address range: a failed mapping is
/// retried in another range until every attempt is spent.
pub fn map_step(attempt: u32, mapped: bool) -> (r: MapStep)
    requires
        attempt < MAP_ATTEMPTS,
    ensures
        mapped ==> r == MapStep::Done,
        !mapped && attempt + 1 < MAP_ATTEMPTS ==> r == MapStep::Retry,
        !mapped && attempt + 1 == MAP_ATTEMPTS ==> r == MapStep::Fail,
{
    if mapped {
        MapStep::Done
    } else if attempt + 1 < MAP_ATTEMPTS {
        MapStep::Retry
    } else {
        MapStep::Fail
    }
}

} // verus!
