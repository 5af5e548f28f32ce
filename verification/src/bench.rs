//! The transport benchmark: its arithmetic, and the commands that the driver
//! gives to the peer, one in a line.

use vstd::prelude::*;
use vstd::slice::slice_subrange;

use crate::data_pipe::direct::{chars_of, find_word, next_word, number, parse_number};

verus! {

/// One byte taken into the running sum: added, and the sum rotated by a bit.
pub open spec fn mix(acc: u64, b: u8) -> u64 {
    let s = ((acc + b) % 0x1_0000_0000_0000_0000) as u64;
    (s << 1) | (s >> 63)
}

/// The running sum over all bytes.
pub open spec fn touched(s: Seq<u8>) -> u64
    decreases s.len(),
{
    if s.len() == 0 {
        0
    } else {
        mix(touched(s.drop_last()), s.last())
    }
}

/// Reads every byte, so that none of them can be left unread.
pub fn touch(buf: &[u8]) -> (r: u64)
    ensures
        r == touched(buf@),
{
    let mut acc: u64 = 0;
    let mut i: usize = 0;
    assert(buf@.take(0) =~= Seq::<u8>::empty());
    while i < buf.len()
        invariant
            i <= buf@.len(),
            acc == touched(buf@.take(i as int)),
        decreases buf@.len() - i,
    {
        assert(buf@.take(i + 1).drop_last() =~= buf@.take(i as int));
        let s: u64 = acc.wrapping_add(buf[i] as u64);
        acc = (s << 1) | (s >> 63);
        i = i + 1;
    }
    assert(buf@.take(i as int) =~= buf@);
    acc
}

/// The seed of round `i`.
pub fn seed_of(i: u64) -> (r: u64)
    ensures
        r == (((i * 0x9E37_79B9_7F4A_7C15) % 0x1_0000_0000_0000_0000) as u64) ^ 0xDEAD_BEEF,
{
    i.wrapping_mul(0x9E37_79B9_7F4A_7C15) ^ 0xDEAD_BEEF
}

/// Throughput in mebibytes per second, rounded down, of `size` bytes in `us`
/// microseconds. No time at all counts as one microsecond.
pub fn mib_per_s(size: u64, us: u64) -> (r: u128)
    ensures
        r == (size * 1_000_000) / (if us == 0 {
            1048576
        } else {
            us * 1048576
        }),
{
    let t: u128 = if us == 0 {
        1
    } else {
        us as u128
    };
    assert(size * 1_000_000 <= u64::MAX * 1_000_000) by (nonlinear_arith)
        requires
            0 <= size <= u64::MAX,
    ;
    assert(1048576 <= t * 1048576 <= u64::MAX * 1048576) by (nonlinear_arith)
        requires
            1 <= t <= u64::MAX,
    ;
    (size as u128) * 1_000_000 / (t * 1048576)
}

/// The sizes that are measured, with their names and how often.
pub fn sizes() -> (r: Vec<(&'static str, usize, usize)>)
    ensures
        r@ == seq![
            ("4KiB", 4096usize, 2000usize),
            ("64KiB", 65536, 1000),
            ("1MiB", 1048576, 400),
            ("4MiB", 4194304, 150),
            ("64MiB", 67108864, 40),
        ],
{
    vec![
        ("4KiB", 4096, 2000),
        ("64KiB", 65536, 1000),
        ("1MiB", 1048576, 400),
        ("4MiB", 4194304, 150),
        ("64MiB", 67108864, 40),
    ]
}

// --------------------------------------------------------------- commands ---

/// What the driver tells the peer to do.
#[derive(Clone, Copy, Debug, PartialEq, Eq, Structural)]
pub enum Command {
    /// Answer at once.
    Sync,
    /// Map so many bytes of the object with this value in the peer's process.
    /// It is for the platform that has such values to read the numbers.
    MapHandle { value: Option<u64>, size: Option<usize> },
    /// Map so many bytes of a descriptor of another process. It is for the
    /// platform that has descriptors to read the numbers.
    MapFile { pid: Option<u32>, fd: Option<u32>, size: Option<usize> },
    /// Read so many bytes of what is mapped.
    Go(usize),
    /// Read so many bytes that follow the line.
    Copy(usize),
    Quit,
    /// No command that the peer knows: it is passed over.
    Unknown,
    /// A word is missing, or a length is no number that fits.
    Malformed,
}

/// Word `n` of a line, counted from nought.
pub open spec fn nth_word(s: Seq<char>, n: nat) -> Option<Seq<char>>
    decreases n,
{
    let (w, rest) = next_word(s);
    if n == 0 || w is None {
        w
    } else {
        nth_word(rest, (n - 1) as nat)
    }
}

/// The number that word `n` of a line denotes, if it is at most `max`.
pub open spec fn nth_number(s: Seq<char>, n: nat, max: nat) -> Option<nat> {
    match nth_word(s, n) {
        Some(w) => number(w, max),
        None => None,
    }
}

/// The length that word `n` of a line denotes.
pub open spec fn nth_size(s: Seq<char>, n: nat) -> Option<usize> {
    match nth_number(s, n, usize::MAX as nat) {
        Some(v) => Some(v as usize),
        None => None,
    }
}

/// The command that a line gives. Words beyond what it needs are ignored.
pub open spec fn command_of(s: Seq<char>) -> Command {
    match nth_word(s, 0) {
        None => Command::Malformed,
        Some(w) => if w == "SYNC"@ {
            Command::Sync
        } else if w == "MAPW"@ {
            if nth_word(s, 2) is None {
                Command::Malformed
            } else {
                Command::MapHandle {
                    value: match nth_number(s, 1, u64::MAX as nat) {
                        Some(v) => Some(v as u64),
                        None => None,
                    },
                    size: nth_size(s, 2),
                }
            }
        } else if w == "MAPU"@ {
            if nth_word(s, 3) is None {
                Command::Malformed
            } else {
                Command::MapFile {
                    pid: match nth_number(s, 1, u32::MAX as nat) {
                        Some(v) => Some(v as u32),
                        None => None,
                    },
                    fd: match nth_number(s, 2, i32::MAX as nat) {
                        Some(v) => Some(v as u32),
                        None => None,
                    },
                    size: nth_size(s, 3),
                }
            }
        } else if w == "GO"@ {
            match nth_size(s, 1) {
                Some(n) => Command::Go(n),
                None => Command::Malformed,
            }
        } else if w == "COPY"@ {
            match nth_size(s, 1) {
                Some(n) => Command::Copy(n),
                None => Command::Malformed,
            }
        } else if w == "QUIT"@ {
            Command::Quit
        } else {
            Command::Unknown
        },
    }
}

/// Finds word `n` of a line: its bounds.
fn find_nth(s: &[char], n: usize) -> (r: Option<(usize, usize)>)
    ensures
        match r {
            Some((a, b)) => a < b <= s@.len() && nth_word(s@, n as nat) == Some(
                s@.subrange(a as int, b as int),
            ),
            None => nth_word(s@, n as nat) is None,
        },
{
    let mut from: usize = 0;
    let mut k: usize = 0;
    assert(s@.skip(0) =~= s@);
    while k < n
        invariant
            k <= n,
            from <= s@.len(),
            nth_word(s@, n as nat) == nth_word(s@.skip(from as int), (n - k) as nat),
        decreases n - k,
    {
        match find_word(s, from) {
            Some((_, b)) => {
                from = b;
            },
            None => {
                return None;
            },
        }
        k = k + 1;
    }
    find_word(s, from)
}

/// Is the first word of a line this one?
fn begins_with(s: &[char], want: &str) -> (r: bool)
    ensures
        r == (nth_word(s@, 0) == Some(want@)),
{
    let (a, b) = match find_nth(s, 0) {
        Some(w) => w,
        None => {
            return false;
        },
    };
    let w = chars_of(want);
    if w.len() != b - a {
        assert(s@.subrange(a as int, b as int).len() == b - a);
        return false;
    }
    let mut i: usize = 0;
    while i < w.len()
        invariant
            i <= w@.len(),
            w@ == want@,
            w@.len() == b - a,
            a < b <= s@.len(),
            nth_word(s@, 0) == Some(s@.subrange(a as int, b as int)),
            forall|j: int| 0 <= j < i ==> s@.subrange(a as int, b as int)[j] == want@[j],
        decreases w@.len() - i,
    {
        if s[a + i] != w[i] {
            assert(s@.subrange(a as int, b as int)[i as int] != want@[i as int]);
            return false;
        }
        i = i + 1;
    }
    assert(s@.subrange(a as int, b as int) =~= want@);
    true
}

/// Reads the number that word `n` of a line denotes, if it is at most `max`.
fn read_nth(s: &[char], n: usize, max: u64) -> (r: Option<u64>)
    ensures
        match r {
            Some(v) => nth_number(s@, n as nat, max as nat) == Some(v as nat),
            None => nth_number(s@, n as nat, max as nat) is None,
        },
{
    match find_nth(s, n) {
        Some((a, b)) => parse_number(slice_subrange(s, a, b), max),
        None => None,
    }
}

/// Reads the length that word `n` of a line denotes.
fn read_size(s: &[char], n: usize) -> (r: Option<usize>)
    ensures
        r == nth_size(s@, n as nat),
{
    match read_nth(s, n, usize::MAX as u64) {
        Some(v) => Some(v as usize),
        None => None,
    }
}

/// Reads the 32-bit number that word `n` of a line denotes, if it is at most
/// `max`.
fn read_u32(s: &[char], n: usize, max: u32) -> (r: Option<u32>)
    ensures
        r == (match nth_number(s@, n as nat, max as nat) {
            Some(v) => Some(v as u32),
            None => None,
        }),
{
    match read_nth(s, n, max as u64) {
        Some(v) => Some(v as u32),
        None => None,
    }
}

/// Reads a command.
pub fn parse_command(line: &str) -> (r: Command)
    ensures
        r == command_of(line@),
{
    let chars = chars_of(line);
    let s = chars.as_slice();
    if find_nth(s, 0).is_none() {
        return Command::Malformed;
    }
    if begins_with(s, "SYNC") {
        Command::Sync
    } else if begins_with(s, "MAPW") {
        if find_nth(s, 2).is_none() {
            return Command::Malformed;
        }
        Command::MapHandle { value: read_nth(s, 1, u64::MAX), size: read_size(s, 2) }
    } else if begins_with(s, "MAPU") {
        if find_nth(s, 3).is_none() {
            return Command::Malformed;
        }
        Command::MapFile {
            pid: read_u32(s, 1, u32::MAX),
            fd: read_u32(s, 2, i32::MAX as u32),
            size: read_size(s, 3),
        }
    } else if begins_with(s, "GO") {
        match read_size(s, 1) {
            Some(n) => Command::Go(n),
            None => Command::Malformed,
        }
    } else if begins_with(s, "COPY") {
        match read_size(s, 1) {
            Some(n) => Command::Copy(n),
            None => Command::Malformed,
        }
    } else if begins_with(s, "QUIT") {
        Command::Quit
    } else {
        Command::Unknown
    }
}

} // verus!
