//! Topic names and topic filters as sequences of levels.
//!
//! A topic is cut at every `/`. Each piece is a level, and an empty piece is
//! a level like any other, so a topic has one level more than it has slashes.
//! Levels are compared byte by byte, over the UTF-8 encoding of the topic.

use vstd::prelude::*;
use vstd::utf8::encode_utf8;

verus! {

/// The byte that separates two levels: `/`.
pub const LEVEL_SEPARATOR: u8 = 0x2F;

/// The level that stands for exactly one level of any name: `+`.
pub open spec fn single_level_wildcard() -> Seq<u8> {
    seq![0x2Bu8]
}

/// The level that stands for this level and all below it: `#`.
pub open spec fn multi_level_wildcard() -> Seq<u8> {
    seq![0x23u8]
}

/// The length of the first level of `bytes`: the number of bytes before the
/// first separator, or before the end where there is none.
pub open spec fn first_level_len(bytes: Seq<u8>) -> nat
    decreases bytes.len(),
{
    if bytes.len() == 0 || bytes[0] == LEVEL_SEPARATOR {
        0
    } else {
        1 + first_level_len(bytes.skip(1))
    }
}

/// The levels of `bytes`.
pub open spec fn split_levels(bytes: Seq<u8>) -> Seq<Seq<u8>>
    decreases bytes.len(),
{
    let n = first_level_len(bytes);
    if n >= bytes.len() {
        seq![bytes]
    } else {
        seq![bytes.take(n as int)] + split_levels(bytes.skip(n as int + 1))
    }
}

/// The levels of a topic or filter given as text.
pub open spec fn topic_levels(topic: Seq<char>) -> Seq<Seq<u8>> {
    split_levels(encode_utf8(topic))
}

/// Whether a filter matches a topic, both given by their levels.
///
/// The empty filter matches the empty topic. A filter that is the
/// multi-level wildcard alone matches every topic, the empty one too, so
/// `a/#` matches `a` as well as `a/b/c`. Otherwise the first levels must
/// agree, where the single-level wildcard agrees with any level, and the
/// rest of the filter must match the rest of the topic. Wildcards mean
/// something in the filter only: in the topic they are names.
pub open spec fn filter_matches(filter: Seq<Seq<u8>>, topic: Seq<Seq<u8>>) -> bool
    decreases filter.len(),
{
    if filter.len() == 0 {
        topic.len() == 0
    } else if filter.len() == 1 && filter[0] == multi_level_wildcard() {
        true
    } else if topic.len() == 0 {
        false
    } else {
        (filter[0] == topic[0] || filter[0] == single_level_wildcard()) && filter_matches(
            filter.skip(1),
            topic.skip(1),
        )
    }
}

/// The first level is never longer than the whole.
pub proof fn lemma_first_level_len_bound(bytes: Seq<u8>)
    ensures
        first_level_len(bytes) <= bytes.len(),
    decreases bytes.len(),
{
    if bytes.len() == 0 || bytes[0] == LEVEL_SEPARATOR {
    } else {
        lemma_first_level_len_bound(bytes.skip(1));
    }
}

/// Where the first `n` bytes hold no separator and either a separator
/// follows or the bytes end, the first level is `n` bytes long.
pub proof fn lemma_first_level_len_is(bytes: Seq<u8>, n: int)
    requires
        0 <= n <= bytes.len(),
        forall|i: int| 0 <= i < n ==> bytes[i] != LEVEL_SEPARATOR,
        n == bytes.len() || bytes[n] == LEVEL_SEPARATOR,
    ensures
        first_level_len(bytes) == n,
    decreases n,
{
    if n == 0 {
    } else {
        let tail = bytes.skip(1);
        assert forall|i: int| 0 <= i < n - 1 implies tail[i] != LEVEL_SEPARATOR by {
            assert(tail[i] == bytes[i + 1]);
        }
        lemma_first_level_len_is(tail, n - 1);
    }
}

/// The filter that is the multi-level wildcard alone matches every topic.
pub proof fn lemma_multi_level_wildcard_matches_all(topic: Seq<Seq<u8>>)
    ensures
        filter_matches(seq![multi_level_wildcard()], topic),
{
}

/// A filter that ends in the multi-level wildcard matches the topic that
/// its levels before the wildcard spell, and every topic below that one.
pub proof fn lemma_multi_level_wildcard_matches_below(prefix: Seq<Seq<u8>>, below: Seq<Seq<u8>>)
    ensures
        filter_matches(prefix + seq![multi_level_wildcard()], prefix + below),
    decreases prefix.len(),
{
    let filter = prefix + seq![multi_level_wildcard()];
    let topic = prefix + below;
    if prefix.len() == 0 {
        assert(filter =~= seq![multi_level_wildcard()]);
    } else {
        assert(filter.skip(1) =~= prefix.skip(1) + seq![multi_level_wildcard()]);
        assert(topic.skip(1) =~= prefix.skip(1) + below);
        assert(filter[0] == topic[0]);
        lemma_multi_level_wildcard_matches_below(prefix.skip(1), below);
    }
}

/// A filter with the single-level wildcard at one place matches the topic
/// that has any one level at that place and is the same elsewhere, if the
/// filter matches itself read as a topic elsewhere: that is, if its other
/// levels are matched level by level.
pub proof fn lemma_single_level_wildcard_matches_one_level(
    before: Seq<Seq<u8>>,
    level: Seq<u8>,
    filter_after: Seq<Seq<u8>>,
    topic_after: Seq<Seq<u8>>,
)
    requires
        filter_matches(filter_after, topic_after),
        forall|i: int| 0 <= i < before.len() ==> before[i] != multi_level_wildcard(),
    ensures
        filter_matches(
            before + seq![single_level_wildcard()] + filter_after,
            before + seq![level] + topic_after,
        ),
    decreases before.len(),
{
    let filter = before + seq![single_level_wildcard()] + filter_after;
    let topic = before + seq![level] + topic_after;
    assert(single_level_wildcard()[0] != multi_level_wildcard()[0]);
    if before.len() == 0 {
        assert(filter.skip(1) =~= filter_after);
        assert(topic.skip(1) =~= topic_after);
        assert(filter[0] == single_level_wildcard());
    } else {
        assert(filter.skip(1) =~= before.skip(1) + seq![single_level_wildcard()] + filter_after);
        assert(topic.skip(1) =~= before.skip(1) + seq![level] + topic_after);
        assert(filter[0] == topic[0]);
        assert(filter[0] == before[0]);
        assert forall|i: int| 0 <= i < before.skip(1).len() implies before.skip(1)[i]
            != multi_level_wildcard() by {
            assert(before.skip(1)[i] == before[i + 1]);
        }
        lemma_single_level_wildcard_matches_one_level(
            before.skip(1),
            level,
            filter_after,
            topic_after,
        );
    }
}

/// A filter without the multi-level wildcard matches only topics that have
/// as many levels as it has.
pub proof fn lemma_depth_without_multi_level_wildcard(filter: Seq<Seq<u8>>, topic: Seq<Seq<u8>>)
    requires
        filter_matches(filter, topic),
        forall|i: int| 0 <= i < filter.len() ==> filter[i] != multi_level_wildcard(),
    ensures
        filter.len() == topic.len(),
    decreases filter.len(),
{
    if filter.len() > 0 {
        assert(filter[0] != multi_level_wildcard());
        assert forall|i: int| 0 <= i < filter.skip(1).len() implies filter.skip(1)[i]
            != multi_level_wildcard() by {
            assert(filter.skip(1)[i] == filter[i + 1]);
        }
        lemma_depth_without_multi_level_wildcard(filter.skip(1), topic.skip(1));
    }
}

/// Where the first level ends before the bytes do, a separator follows it.
pub proof fn lemma_separator_after_first_level(bytes: Seq<u8>)
    requires
        first_level_len(bytes) < bytes.len(),
    ensures
        bytes[first_level_len(bytes) as int] == LEVEL_SEPARATOR,
    decreases bytes.len(),
{
    if bytes.len() == 0 || bytes[0] == LEVEL_SEPARATOR {
    } else {
        lemma_separator_after_first_level(bytes.skip(1));
        assert(bytes.skip(1)[first_level_len(bytes.skip(1)) as int] == bytes[first_level_len(
            bytes,
        ) as int]);
    }
}

/// The bytes have at least one level.
pub proof fn lemma_split_levels_nonempty(bytes: Seq<u8>)
    ensures
        split_levels(bytes).len() >= 1,
    decreases bytes.len(),
{
    let n = first_level_len(bytes);
    if n < bytes.len() {
        lemma_split_levels_nonempty(bytes.skip(n as int + 1));
    }
}

/// Byte strings with the same levels are the same.
pub proof fn lemma_split_levels_injective(a: Seq<u8>, b: Seq<u8>)
    requires
        split_levels(a) == split_levels(b),
    ensures
        a == b,
    decreases a.len(),
{
    let n = first_level_len(a);
    let m = first_level_len(b);
    lemma_first_level_len_bound(a);
    lemma_first_level_len_bound(b);
    if n >= a.len() {
        if m >= b.len() {
            assert(split_levels(a)[0] == a);
            assert(split_levels(b)[0] == b);
        } else {
            lemma_split_levels_nonempty(b.skip(m as int + 1));
            assert(split_levels(b).len() >= 2);
            assert(split_levels(a).len() == 1);
        }
    } else {
        let ra = a.skip(n as int + 1);
        if m >= b.len() {
            lemma_split_levels_nonempty(ra);
            assert(split_levels(a).len() >= 2);
            assert(split_levels(b).len() == 1);
        } else {
            let rb = b.skip(m as int + 1);
            let sa = split_levels(a);
            let sb = split_levels(b);
            assert(sa[0] == a.take(n as int));
            assert(sb[0] == b.take(m as int));
            assert(a.take(n as int).len() == n);
            assert(b.take(m as int).len() == m);
            assert(n == m);
            assert(sa.skip(1) =~= split_levels(ra));
            assert(sb.skip(1) =~= split_levels(rb));
            lemma_split_levels_injective(ra, rb);
            lemma_separator_after_first_level(a);
            lemma_separator_after_first_level(b);
            assert(a.len() == b.len()) by {
                assert(ra.len() == a.len() - n - 1);
                assert(rb.len() == b.len() - m - 1);
            }
            assert forall|i: int| 0 <= i < a.len() implies a[i] == b[i] by {
                if i < n {
                    assert(a.take(n as int)[i] == b.take(m as int)[i]);
                } else if i > n {
                    assert(ra[i - n - 1] == a[i]);
                    assert(rb[i - n - 1] == b[i]);
                }
            }
            assert(a =~= b);
        }
    }
}

/// Topics with the same levels are the same.
pub proof fn lemma_topic_levels_injective(a: Seq<char>, b: Seq<char>)
    requires
        topic_levels(a) == topic_levels(b),
    ensures
        a == b,
{
    lemma_split_levels_injective(encode_utf8(a), encode_utf8(b));
    vstd::utf8::encode_utf8_decode_utf8(a);
    vstd::utf8::encode_utf8_decode_utf8(b);
}

/// The view of a vector of levels.
pub open spec fn levels_view(levels: Seq<Vec<u8>>) -> Seq<Seq<u8>> {
    Seq::new(levels.len(), |i: int| levels[i]@)
}

/// Cuts a topic or filter into its levels.
pub fn split_topic(topic: &str) -> (levels: Vec<Vec<u8>>)
    ensures
        levels_view(levels@) == topic_levels(topic@),
        levels@.len() >= 1,
{
    let bytes = topic.as_bytes();
    let mut levels: Vec<Vec<u8>> = Vec::new();
    let mut current: Vec<u8> = Vec::new();
    let mut i: usize = 0;
    let ghost mut start: int = 0;
    proof {
        assert(bytes@.skip(0) =~= bytes@);
        assert(levels_view(levels@) + split_levels(bytes@) =~= split_levels(bytes@));
    }
    while i < bytes.len()
        invariant
            0 <= start <= i <= bytes.len(),
            bytes@ == encode_utf8(topic@),
            current@ == bytes@.subrange(start, i as int),
            forall|j: int| start <= j < i ==> bytes@[j] != LEVEL_SEPARATOR,
            split_levels(bytes@) == levels_view(levels@) + split_levels(bytes@.skip(start)),
        decreases bytes.len() - i,
    {
        let b: u8 = bytes[i];
        if b == LEVEL_SEPARATOR {
            proof {
                let rest = bytes@.skip(start);
                assert forall|j: int| 0 <= j < i - start implies rest[j] != LEVEL_SEPARATOR by {
                    assert(rest[j] == bytes@[start + j]);
                }
                lemma_first_level_len_is(rest, i - start);
                assert(rest.take(i - start) =~= current@);
                assert(rest.skip(i - start + 1) =~= bytes@.skip(i + 1));
                assert(levels_view(levels@.push(current)) =~= levels_view(levels@) + seq![
                    current@,
                ]);
                assert(levels_view(levels@) + (seq![current@] + split_levels(
                    bytes@.skip(i + 1),
                )) =~= (levels_view(levels@) + seq![current@]) + split_levels(
                    bytes@.skip(i + 1),
                ));
                start = i + 1;
            }
            levels.push(current);
            current = Vec::new();
        } else {
            current.push(b);
            assert(current@ =~= bytes@.subrange(start, i + 1));
        }
        i = i + 1;
    }
    proof {
        let rest = bytes@.skip(start);
        assert forall|j: int| 0 <= j < i - start implies rest[j] != LEVEL_SEPARATOR by {
            assert(rest[j] == bytes@[start + j]);
        }
        lemma_first_level_len_is(rest, i - start);
        assert(rest =~= current@);
        assert(levels_view(levels@.push(current)) =~= levels_view(levels@) + seq![current@]);
    }
    levels.push(current);
    levels
}

} // verus!
