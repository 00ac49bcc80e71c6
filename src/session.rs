use vstd::prelude::*;

verus! {

/// Size of the buffer that each read of a response fills.
pub const READ_BUF_LEN: usize = 1024;

/// What the Authority requires after each command: three spaces.
pub open spec fn padding() -> Seq<char> {
    seq![' ', ' ', ' ']
}

/// The text written to the wire for a command.
pub open spec fn framed(cmd: Seq<char>) -> Seq<char> {
    cmd + padding()
}

/// The marker whose presence in a chunk ends a response: `COMPLETE`.
pub open spec fn sentinel() -> Seq<u8> {
    seq![0x43u8, 0x4fu8, 0x4du8, 0x50u8, 0x4cu8, 0x45u8, 0x54u8, 0x45u8]
}

/// The marker occurs in `s` starting at index `i`.
pub open spec fn sentinel_at(s: Seq<u8>, i: int) -> bool {
    0 <= i && i + 8 <= s.len() && s.subrange(i, i + 8) == sentinel()
}

pub open spec fn has_sentinel(s: Seq<u8>) -> bool {
    exists|i: int| sentinel_at(s, i)
}

/// Builds the text to write for one command: the command followed by the
/// padding.
pub fn frame_command(input: &String) -> (r: String)
    ensures
        r@ == framed(input@),
{
    let pad = "   ";
    proof {
        reveal_strlit("   ");
        assert(pad@ =~= padding());
    }
    input.clone().concat(pad)
}

/// Looks for the marker in one chunk of a response. The marker is ASCII,
/// and lossy UTF-8 decoding keeps each ASCII byte as its own character, so
/// searching the bytes finds what searching the decoded text would find.
pub fn contains_sentinel(chunk: &[u8]) -> (r: bool)
    ensures
        r == has_sentinel(chunk@),
{
    let n = chunk.len();
    if n < 8 {
        assert forall|i: int| !sentinel_at(chunk@, i) by {}
        return false;
    }
    let mut i: usize = 0;
    while i <= n - 8
        invariant
            n == chunk@.len(),
            8 <= n,
            i <= n - 7,
            forall|j: int| 0 <= j < i ==> !sentinel_at(chunk@, j),
        decreases n - i,
    {
        if chunk[i] == 0x43u8 && chunk[i + 1] == 0x4fu8 && chunk[i + 2] == 0x4du8
            && chunk[i + 3] == 0x50u8 && chunk[i + 4] == 0x4cu8 && chunk[i + 5] == 0x45u8
            && chunk[i + 6] == 0x54u8 && chunk[i + 7] == 0x45u8 {
            assert(chunk@.subrange(i as int, i + 8) =~= sentinel());
            assert(sentinel_at(chunk@, i as int));
            return true;
        }
        assert(!sentinel_at(chunk@, i as int)) by {
            if sentinel_at(chunk@, i as int) {
                let w = chunk@.subrange(i as int, i + 8);
                assert(w[0] == chunk@[i as int]);
                assert(w[1] == chunk@[i + 1]);
                assert(w[2] == chunk@[i + 2]);
                assert(w[3] == chunk@[i + 3]);
                assert(w[4] == chunk@[i + 4]);
                assert(w[5] == chunk@[i + 5]);
                assert(w[6] == chunk@[i + 6]);
                assert(w[7] == chunk@[i + 7]);
            }
        }
        i = i + 1;
    }
    assert forall|j: int| !sentinel_at(chunk@, j) by {}
    false
}

/// How the exchange for one command stands after a read.
#[derive(Debug, PartialEq, Eq, Structural)]
pub enum Step {
    /// No marker yet: read again.
    Continue,
    /// The marker arrived; the total number of bytes read for the command.
    Complete(u64),
    /// The Authority closed the connection.
    Closed,
    /// The read failed or timed out.
    Failed,
}

impl Step {
    /// The exchange is over: no further read is owed.
    pub open spec fn spec_is_terminal(&self) -> bool {
        !(self is Continue)
    }

    #[verifier::when_used_as_spec(spec_is_terminal)]
    pub fn is_terminal(&self) -> (r: bool)
        ensures
            r == self.spec_is_terminal(),
    {
        match self {
            Step::Continue => false,
            _ => true,
        }
    }
}

/// The response to one command, as far as it has been read.
pub struct Exchange {
    /// Bytes read so far for this command, saturating at `u64::MAX`.
    pub received: u64,
}

/// A count of bytes after `n` more arrived.
pub open spec fn add_received(total: u64, n: nat) -> u64 {
    if total + n <= u64::MAX {
        (total + n) as u64
    } else {
        u64::MAX
    }
}

/// `r` is the step owed after a read that returned `read` (`None`: the read
/// failed), when `before` bytes had been read, and `after` is the new count.
pub open spec fn step_for(before: u64, read: Option<Seq<u8>>, r: Step, after: u64) -> bool {
    match read {
        None => r == Step::Failed && after == before,
        Some(c) => if c.len() == 0 {
            r == Step::Closed && after == before
        } else {
            &&& after == add_received(before, c.len())
            &&& r == if has_sentinel(c) { Step::Complete(after) } else { Step::Continue }
        },
    }
}

impl Exchange {
    /// An exchange before its first read.
    pub fn new() -> (r: Exchange)
        ensures
            r.received == 0,
    {
        Exchange { received: 0 }
    }

    /// Takes the result of one read: the bytes it returned, or `None` where
    /// it failed or timed out. Only the bytes of this read are searched for
    /// the marker, so bytes left over from an earlier, longer read never end
    /// the response.
    pub fn on_read(&mut self, read: Option<&[u8]>) -> (r: Step)
        ensures
            step_for(
                old(self).received,
                match read {
                    Some(c) => Some(c@),
                    None => None,
                },
                r,
                final(self).received,
            ),
    {
        match read {
            None => Step::Failed,
            Some(chunk) => {
                let n = chunk.len();
                if n == 0 {
                    return Step::Closed;
                }
                self.received = if self.received as u128 + n as u128 <= u64::MAX as u128 {
                    self.received + n as u64
                } else {
                    u64::MAX
                };
                if contains_sentinel(chunk) {
                    Step::Complete(self.received)
                } else {
                    Step::Continue
                }
            },
        }
    }
}

/// The number of bytes in a run of reads.
pub open spec fn total_len(reads: Seq<Seq<u8>>) -> nat
    decreases reads.len(),
{
    if reads.len() == 0 {
        0
    } else {
        total_len(reads.drop_last()) + reads.last().len()
    }
}

/// The exchange reports success only for a read whose bytes hold the
/// marker, and the count it reports is the count after that read.
pub proof fn lemma_complete_needs_marker(before: u64, read: Option<Seq<u8>>, r: Step, after: u64)
    requires
        step_for(before, read, r, after),
        r is Complete,
    ensures
        read matches Some(c) && c.len() > 0 && has_sentinel(c),
        r == Step::Complete(after),
{
}

/// Starting from no bytes, after a run of reads that each returned (empty
/// or not), the count is the sum of their lengths, as long as that fits in
/// a `u64`.
pub proof fn lemma_counts_add_up(reads: Seq<Seq<u8>>, steps: Seq<Step>, counts: Seq<u64>)
    requires
        steps.len() == reads.len(),
        counts.len() == reads.len() + 1,
        counts[0] == 0,
        forall|i: int|
            0 <= i < reads.len() ==> step_for(
                #[trigger] counts[i],
                Some(reads[i]),
                steps[i],
                counts[i + 1],
            ),
        total_len(reads) <= u64::MAX,
    ensures
        counts.last() == total_len(reads),
    decreases reads.len(),
{
    if reads.len() > 0 {
        let n = reads.len() - 1;
        let shorter = reads.drop_last();
        assert(total_len(shorter) <= total_len(reads));
        lemma_counts_add_up(shorter, steps.drop_last(), counts.drop_last());
        assert(step_for(counts[n], Some(reads[n]), steps[n], counts[n + 1]));
    }
}

} // verus!
