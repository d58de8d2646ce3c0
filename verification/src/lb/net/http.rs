use vstd::prelude::*;

verus! {

/// The first position in `from .. to` holding `b`, or `to` when none does.
pub open spec fn first_byte_from(s: Seq<u8>, b: u8, from: int, to: int) -> int
    decreases to - from,
{
    if from >= to {
        to
    } else if s[from] == b {
        from
    } else {
        first_byte_from(s, b, from + 1, to)
    }
}

/// The end of the first line of a request head: its first carriage return,
/// or the end of the head.
pub open spec fn request_line_end(head: Seq<u8>) -> int {
    first_byte_from(head, 13u8, 0, head.len() as int)
}

/// Where the target of an HTTP request line lies: the bytes after the first
/// space of the line up to the next space (or the end of the line). `None`
/// when the line holds no space.
pub open spec fn spec_request_target(head: Seq<u8>) -> Option<(int, int)> {
    let end = request_line_end(head);
    let sp = first_byte_from(head, 32u8, 0, end);
    if sp >= end {
        None
    } else {
        Some((sp + 1, first_byte_from(head, 32u8, sp + 1, end)))
    }
}

proof fn lemma_first_byte_from(s: Seq<u8>, b: u8, from: int, to: int)
    requires
        0 <= from <= to <= s.len(),
    ensures
        from <= first_byte_from(s, b, from, to) <= to,
    decreases to - from,
{
    if from < to && s[from] != b {
        lemma_first_byte_from(s, b, from + 1, to);
    }
}

/// The first position in `from .. to` holding `b`, or `to`.
fn find_byte(s: &[u8], b: u8, from: usize, to: usize) -> (r: usize)
    requires
        from <= to <= s@.len(),
    ensures
        r as int == first_byte_from(s@, b, from as int, to as int),
{
    let mut i = from;
    while i < to
        invariant
            from <= i <= to <= s@.len(),
            first_byte_from(s@, b, from as int, to as int) == first_byte_from(
                s@,
                b,
                i as int,
                to as int,
            ),
        decreases to - i,
    {
        if s[i] == b {
            return i;
        }
        i = i + 1;
    }
    i
}

/// Locates the target (the path) of the request line at the start of `head`,
/// as a range of byte positions.
pub fn request_target(head: &[u8]) -> (r: Option<(usize, usize)>)
    ensures
        match r {
            Some((a, b)) => spec_request_target(head@) == Some((a as int, b as int)) && a <= b
                <= head@.len(),
            None => spec_request_target(head@) is None,
        },
{
    let end = find_byte(head, 13u8, 0, head.len());
    proof {
        lemma_first_byte_from(head@, 13u8, 0, head@.len() as int);
    }
    let sp = find_byte(head, 32u8, 0, end);
    proof {
        lemma_first_byte_from(head@, 32u8, 0, end as int);
    }
    if sp >= end {
        return None;
    }
    let stop = find_byte(head, 32u8, sp + 1, end);
    proof {
        lemma_first_byte_from(head@, 32u8, sp + 1, end as int);
    }
    Some((sp + 1, stop))
}

} // verus!
