//! Searching a buffer for a fixed byte pattern, one chunk at a time.
//!
//! A chunk that is not the last of its stream may end in the middle of the
//! pattern. The scanner then reports how many trailing bytes the caller has to
//! keep and present again, in front of the bytes that follow.

use vstd::prelude::*;

verus! {

/// What a scan of one chunk found.
#[derive(Debug, Clone, Copy, PartialEq, Eq, Structural)]
pub enum SearchResult {
    /// The pattern is not in the chunk, and no later chunk can complete it.
    NotFound,
    /// The leftmost occurrence of the pattern starts at this index.
    Found(usize),
    /// The pattern is not in the chunk, but this many trailing bytes may be
    /// the start of an occurrence that the next chunk completes.
    NotFoundWithUnprocessed(usize),
}

/// `item` stands in `buffer` at index `at`, byte for byte.
pub open spec fn occurs_at(buffer: Seq<u8>, item: Seq<u8>, at: int) -> bool {
    &&& 0 <= at
    &&& at + item.len() <= buffer.len()
    &&& buffer.subrange(at, at + item.len()) == item
}

/// `item` stands at `at` and nowhere to the left of it.
pub open spec fn is_first_occurrence(buffer: Seq<u8>, item: Seq<u8>, at: int) -> bool {
    &&& occurs_at(buffer, item, at)
    &&& forall|j: int| j < at ==> !occurs_at(buffer, item, j)
}

/// The index of the leftmost occurrence of `item` in `buffer`, if there is one.
pub open spec fn first_occurrence(buffer: Seq<u8>, item: Seq<u8>) -> Option<int> {
    if exists|i: int| occurs_at(buffer, item, i) {
        Some(choose|i: int| is_first_occurrence(buffer, item, i))
    } else {
        None
    }
}

/// The number of trailing bytes to keep after a chunk of `buffer_len` bytes
/// that does not hold a pattern of `item_len` bytes: the whole chunk while it
/// is shorter than the pattern, else one byte less than the pattern.
pub open spec fn carry_len(buffer_len: nat, item_len: nat) -> nat {
    if buffer_len < item_len {
        buffer_len
    } else {
        (item_len - 1) as nat
    }
}

/// The result of scanning `buffer` for `item`; `is_last` says that no more
/// bytes follow the buffer.
pub open spec fn scan(buffer: Seq<u8>, item: Seq<u8>, is_last: bool) -> SearchResult {
    if buffer.len() == 0 {
        SearchResult::NotFound
    } else {
        match first_occurrence(buffer, item) {
            Some(at) => SearchResult::Found(at as usize),
            None => if is_last {
                SearchResult::NotFound
            } else {
                SearchResult::NotFoundWithUnprocessed(carry_len(buffer.len(), item.len()) as usize)
            },
        }
    }
}

/// An index that is a first occurrence is the first occurrence.
pub proof fn lemma_first_occurrence_is(buffer: Seq<u8>, item: Seq<u8>, at: int)
    requires
        is_first_occurrence(buffer, item, at),
    ensures
        first_occurrence(buffer, item) == Some(at),
{
    let chosen = choose|i: int| is_first_occurrence(buffer, item, i);
    assert(is_first_occurrence(buffer, item, chosen));
    if chosen < at {
        assert(!occurs_at(buffer, item, chosen));
    }
    if at < chosen {
        assert(!occurs_at(buffer, item, at));
    }
}

/// Where `item` occurs at all, it has a leftmost occurrence, and
/// `first_occurrence` names it.
pub proof fn lemma_first_occurrence_exists(buffer: Seq<u8>, item: Seq<u8>, at: int)
    requires
        occurs_at(buffer, item, at),
    ensures
        first_occurrence(buffer, item) is Some,
        is_first_occurrence(buffer, item, first_occurrence(buffer, item).unwrap()),
        first_occurrence(buffer, item).unwrap() <= at,
    decreases at,
{
    if exists|j: int| j < at && occurs_at(buffer, item, j) {
        let j = choose|j: int| j < at && occurs_at(buffer, item, j);
        lemma_first_occurrence_exists(buffer, item, j);
    } else {
        assert(is_first_occurrence(buffer, item, at));
        lemma_first_occurrence_is(buffer, item, at);
    }
}

/// What each result of a scan says of the buffer: `Found` names the leftmost
/// occurrence; the other two say that there is none.
pub proof fn lemma_scan_meaning(buffer: Seq<u8>, item: Seq<u8>, is_last: bool)
    requires
        item.len() > 0,
        buffer.len() <= usize::MAX,
    ensures
        match scan(buffer, item, is_last) {
            SearchResult::Found(at) => is_first_occurrence(buffer, item, at as int),
            SearchResult::NotFound => (buffer.len() == 0 || is_last) && (buffer.len() > 0
                ==> forall|i: int| !occurs_at(buffer, item, i)),
            SearchResult::NotFoundWithUnprocessed(kept) => {
                &&& buffer.len() > 0
                &&& !is_last
                &&& kept == carry_len(buffer.len(), item.len())
                &&& forall|i: int| !occurs_at(buffer, item, i)
            },
        },
{
    if exists|i: int| occurs_at(buffer, item, i) {
        let i = choose|i: int| occurs_at(buffer, item, i);
        lemma_first_occurrence_exists(buffer, item, i);
    }
}

/// An empty buffer gives `NotFound`, whether it is the last chunk or not.
pub proof fn lemma_scan_empty(item: Seq<u8>, is_last: bool)
    ensures
        scan(Seq::empty(), item, is_last) == SearchResult::NotFound,
{
}

/// A buffer that holds bytes, but fewer than the pattern, is kept whole
/// where more bytes may follow, and gives `NotFound` where none do.
pub proof fn lemma_scan_short(buffer: Seq<u8>, item: Seq<u8>)
    requires
        0 < buffer.len() < item.len(),
        buffer.len() <= usize::MAX,
    ensures
        scan(buffer, item, false) == SearchResult::NotFoundWithUnprocessed(buffer.len() as usize),
        scan(buffer, item, true) == SearchResult::NotFound,
{
    assert(forall|i: int| !occurs_at(buffer, item, i));
}

/// An occurrence inside a window of `buffer` is an occurrence in `buffer`
/// that lies inside the window, and the other way round.
pub proof fn lemma_occurs_in_window(buffer: Seq<u8>, item: Seq<u8>, from: int, to: int, at: int)
    requires
        0 <= from <= to <= buffer.len(),
    ensures
        occurs_at(buffer.subrange(from, to), item, at) <==> (0 <= at && from + at + item.len() <= to
            && occurs_at(buffer, item, from + at)),
{
    if 0 <= at && from + at + item.len() <= to {
        assert(buffer.subrange(from, to).subrange(at, at + item.len()) =~= buffer.subrange(
            from + at,
            from + at + item.len(),
        ));
    }
}

/// A result found in a chunk that starts `by` bytes into a stream, as an
/// index into the stream.
pub open spec fn offset_by(result: SearchResult, by: int) -> SearchResult {
    match result {
        SearchResult::Found(at) => SearchResult::Found((at + by) as usize),
        other => other,
    }
}

/// Scanning `buffer` as two chunks: the bytes before `cut` first, as a chunk
/// that is not the last; if the pattern is not in them, the rest, with the
/// bytes in front of it that the first scan asked to keep.
pub open spec fn scan_in_two(buffer: Seq<u8>, item: Seq<u8>, cut: int) -> SearchResult {
    match scan(buffer.subrange(0, cut), item, false) {
        SearchResult::Found(at) => SearchResult::Found(at),
        SearchResult::NotFound => offset_by(
            scan(buffer.subrange(cut, buffer.len() as int), item, true),
            cut,
        ),
        SearchResult::NotFoundWithUnprocessed(kept) => offset_by(
            scan(buffer.subrange(cut - kept, buffer.len() as int), item, true),
            cut - kept,
        ),
    }
}

/// Cutting a buffer in two at any place and scanning the chunks in turn,
/// with the bytes carried over that the first scan asked for, gives what one
/// scan of the whole buffer gives: the same leftmost occurrence, or none.
pub proof fn lemma_scan_in_two(buffer: Seq<u8>, item: Seq<u8>, cut: int)
    requires
        item.len() > 0,
        0 <= cut <= buffer.len() <= usize::MAX,
    ensures
        scan_in_two(buffer, item, cut) == scan(buffer, item, true),
{
    let len = buffer.len() as int;
    let head = buffer.subrange(0, cut);
    assert forall|i: int| occurs_at(head, item, i) <==> (0 <= i && i + item.len() <= cut
        && occurs_at(buffer, item, i)) by {
        lemma_occurs_in_window(buffer, item, 0, cut, i);
    }
    if exists|i: int| occurs_at(head, item, i) {
        let i = choose|i: int| occurs_at(head, item, i);
        lemma_first_occurrence_exists(head, item, i);
        let at = first_occurrence(head, item).unwrap();
        assert(is_first_occurrence(buffer, item, at));
        lemma_first_occurrence_is(buffer, item, at);
    } else {
        let kept: int = if cut == 0 {
            0
        } else {
            carry_len(cut as nat, item.len()) as int
        };
        let start = cut - kept;
        let tail = buffer.subrange(start, len);
        assert forall|i: int| occurs_at(tail, item, i) <==> (0 <= i && occurs_at(
            buffer,
            item,
            start + i,
        )) by {
            lemma_occurs_in_window(buffer, item, start, len, i);
        }
        assert forall|i: int| i < start implies !occurs_at(buffer, item, i) by {
            if occurs_at(buffer, item, i) {
                assert(occurs_at(head, item, i));
            }
        }
        if exists|i: int| occurs_at(tail, item, i) {
            let i = choose|i: int| occurs_at(tail, item, i);
            lemma_first_occurrence_exists(tail, item, i);
            let at = first_occurrence(tail, item).unwrap();
            assert(is_first_occurrence(buffer, item, start + at)) by {
                assert forall|j: int| j < start + at implies !occurs_at(buffer, item, j) by {
                    if start <= j {
                        assert(!occurs_at(tail, item, j - start));
                    }
                }
            }
            lemma_first_occurrence_is(buffer, item, start + at);
        } else {
            assert forall|i: int| !occurs_at(buffer, item, i) by {
                if occurs_at(buffer, item, i) {
                    assert(occurs_at(tail, item, i - start));
                }
            }
        }
    }
}

/// Whether `item` stands in `buffer` at index `at`.
fn window_matches(buffer: &[u8], item: &[u8], at: usize) -> (found: bool)
    requires
        at + item.len() <= buffer.len(),
    ensures
        found == occurs_at(buffer@, item@, at as int),
{
    let mut k: usize = 0;
    while k < item.len()
        invariant
            k <= item.len(),
            at + item.len() <= buffer.len(),
            forall|m: int| 0 <= m < k ==> buffer@[at + m] == item@[m],
        decreases item.len() - k,
    {
        if buffer[at + k] != item[k] {
            proof {
                let window = buffer@.subrange(at as int, at + item.len());
                assert(window[k as int] == buffer@[at + k]);
            }
            return false;
        }
        k += 1;
    }
    assert(buffer@.subrange(at as int, at + item.len()) =~= item@);
    true
}

/// Looks for `item` in `buffer` and reports the leftmost occurrence.
///
/// Where there is none, an empty buffer and a last chunk give `NotFound`; any
/// other chunk gives the number of trailing bytes that have to be scanned
/// again together with the bytes that follow.
pub fn look_for_item(buffer: &[u8], item: &[u8], is_last: bool) -> (result: SearchResult)
    requires
        item.len() > 0,
    ensures
        result == scan(buffer@, item@, is_last),
{
    let item_size = item.len();
    let buffer_size = buffer.len();
    if buffer_size == 0 {
        return SearchResult::NotFound;
    }
    if buffer_size < item_size {
        assert(forall|i: int| !occurs_at(buffer@, item@, i));
        if is_last {
            return SearchResult::NotFound;
        } else {
            return SearchResult::NotFoundWithUnprocessed(buffer_size);
        }
    }
    let last_start = buffer_size - item_size;
    let mut index: usize = 0;
    while index <= last_start
        invariant
            index <= last_start + 1,
            item.len() > 0,
            buffer.len() > 0,
            last_start == buffer.len() - item.len(),
            forall|j: int| j < index ==> !occurs_at(buffer@, item@, j),
        decreases last_start + 1 - index,
    {
        if window_matches(buffer, item, index) {
            proof {
                lemma_first_occurrence_is(buffer@, item@, index as int);
            }
            return SearchResult::Found(index);
        }
        index += 1;
    }
    assert(forall|i: int| !occurs_at(buffer@, item@, i));
    if is_last {
        SearchResult::NotFound
    } else {
        SearchResult::NotFoundWithUnprocessed(item_size - 1)
    }
}

} // verus!
