//! The general laws of the highlighter, stated and proved over the
//! mathematical line model that the executable functions are verified
//! against.

use vstd::prelude::*;

use crate::highlight::{
    fold_sublines, ip_segments, line_model, marker_of, step_subline,
};
use crate::pattern::{
    contains_pat, delim, first_ip, first_pat, has_ddd, has_ip, ip_match_at, ip_match_len, is_digit,
    kw_ban, lemma_first_ip_found, lemma_first_pat_found, lemma_ip_match_has_ddd,
    lemma_ip_match_len_bound, lemma_split_sublines_len, pat_at, split_sublines,
};
use crate::style::{address, concat_texts, keyword, plain, SegModel};

verus! {

/// A raw line holding no delimiter is a single sub-line, so its styled
/// line is exactly the segment sequence of that one sub-line.
pub proof fn lemma_single_subline(raw: Seq<char>)
    requires
        !contains_pat(raw, delim()),
        has_ip(raw),
    ensures
        line_model(raw) =~= ip_segments(raw),
{
    assert(split_sublines(raw) =~= seq![raw]);
    assert(seq![raw].drop_first().len() == 0);
    assert(line_model(raw) == fold_sublines(
        seq![raw].drop_first(),
        raw,
        step_subline(Seq::empty(), raw, raw),
    ));
    assert(Seq::<SegModel>::empty() + ip_segments(raw) =~= ip_segments(raw));
}

proof fn lemma_concat1(s0: SegModel)
    ensures
        concat_texts(seq![s0]) =~= s0.text,
{
    assert(seq![s0].drop_first().len() == 0);
    assert(concat_texts(seq![s0].drop_first()) =~= Seq::<char>::empty());
}

proof fn lemma_concat3(s0: SegModel, s1: SegModel, s2: SegModel)
    ensures
        concat_texts(seq![s0, s1, s2]) =~= s0.text + s1.text + s2.text,
{
    lemma_concat1(s2);
    assert(seq![s1, s2].drop_first() =~= seq![s2]);
    assert(concat_texts(seq![s1, s2]) =~= s1.text + s2.text);
    assert(seq![s0, s1, s2].drop_first() =~= seq![s1, s2]);
}

proof fn lemma_concat4(s0: SegModel, s1: SegModel, s2: SegModel, s3: SegModel)
    ensures
        concat_texts(seq![s0, s1, s2, s3]) =~= s0.text + s1.text + s2.text + s3.text,
{
    lemma_concat3(s1, s2, s3);
    assert(seq![s0, s1, s2, s3].drop_first() =~= seq![s1, s2, s3]);
}

/// The case shape of `ip_segments`, read off its definition.
proof fn lemma_ip_segments_cases(sub: Seq<char>)
    ensures
        ({
            let p = first_ip(sub);
            let l = ip_match_len(sub, p);
            let left = sub.take(p);
            let addr = sub.subrange(p, p + l);
            let right = sub.skip(p + l);
            match marker_of(sub) {
                Some(m) => if contains_pat(left, m) {
                    ip_segments(sub) == seq![
                        plain(left.take(first_pat(left, m))),
                        keyword(m.push(' ')),
                        address(addr),
                        plain(right),
                    ]
                } else {
                    ip_segments(sub) == seq![plain(left), address(addr), plain(right)]
                },
                None => ip_segments(sub) == seq![plain(left), address(addr), plain(right)],
            }
        }),
{
}

/// Splicing a partitioned line back together, with the marker's
/// trailing space restored.
proof fn lemma_rejoin(
    whole: Seq<char>,
    left: Seq<char>,
    mid: Seq<char>,
    rest: Seq<char>,
    pre: Seq<char>,
    m: Seq<char>,
)
    requires
        whole =~= left + mid + rest,
        left =~= pre + m + seq![' '],
    ensures
        pre + m.push(' ') + mid + rest =~= whole,
{
    assert(m.push(' ') =~= m + seq![' ']);
}

/// Concatenating an address partition of a line gives the line back.
proof fn lemma_concat_partition3(whole: Seq<char>, p: int, e: int)
    requires
        0 <= p <= e <= whole.len(),
    ensures
        concat_texts(
            seq![plain(whole.take(p)), address(whole.subrange(p, e)), plain(whole.skip(e))],
        ) =~= whole,
{
    lemma_concat3(plain(whole.take(p)), address(whole.subrange(p, e)), plain(whole.skip(e)));
    assert(whole.take(p) + whole.subrange(p, e) + whole.skip(e) =~= whole);
}

/// Concatenating a marker-and-address partition of a line gives the
/// line back, when a single space stands between marker and address.
proof fn lemma_concat_partition4(whole: Seq<char>, p: int, e: int, q: int, m: Seq<char>)
    requires
        0 <= p <= e <= whole.len(),
        whole.take(p) =~= whole.take(p).take(q) + m + seq![' '],
    ensures
        concat_texts(
            seq![
                plain(whole.take(p).take(q)),
                keyword(m.push(' ')),
                address(whole.subrange(p, e)),
                plain(whole.skip(e)),
            ],
        ) =~= whole,
{
    lemma_concat4(plain(whole.take(p).take(q)), keyword(m.push(' ')), address(
        whole.subrange(p, e),
    ), plain(whole.skip(e)));
    assert(whole.take(p) + whole.subrange(p, e) + whole.skip(e) =~= whole);
    lemma_rejoin(whole, whole.take(p), whole.subrange(p, e), whole.skip(e), whole.take(p).take(q),
        m);
}

/// Text preservation at the sub-line level: the concatenation of the
/// segments' texts of a sub-line holding an address, style tags
/// ignored, gives back the sub-line — provided that, when the detected
/// keyword marker occurs left of the address, exactly one space stands
/// between the marker's first occurrence there and the address.
#[verifier::rlimit(100)]
#[verifier::spinoff_prover]
pub proof fn lemma_ip_concat_texts(sub: Seq<char>)
    requires
        has_ip(sub),
        ({
            let left = sub.take(first_ip(sub));
            match marker_of(sub) {
                Some(m) => contains_pat(left, m) ==> left =~= left.take(first_pat(left, m)) + m
                    + seq![' '],
                None => true,
            }
        }),
    ensures
        concat_texts(ip_segments(sub)) =~= sub,
{
    lemma_first_ip_found(sub, 0);
    let p = first_ip(sub);
    lemma_ip_match_len_bound(sub, p);
    let l = ip_match_len(sub, p);
    lemma_ip_segments_cases(sub);
    match marker_of(sub) {
        Some(m) => {
            if contains_pat(sub.take(p), m) {
                lemma_concat_partition4(sub, p, p + l, first_pat(sub.take(p), m), m);
            } else {
                lemma_concat_partition3(sub, p, p + l);
            }
        },
        None => {
            lemma_concat_partition3(sub, p, p + l);
        },
    }
}

/// Text preservation: for a raw line holding no delimiter and some
/// IPv4-shaped substring, the concatenation of the styled segments'
/// texts, style tags ignored, gives back the original raw line — under
/// the same marker proviso as [`lemma_ip_concat_texts`].
pub proof fn lemma_text_preserved(raw: Seq<char>)
    requires
        !contains_pat(raw, delim()),
        has_ip(raw),
        ({
            let left = raw.take(first_ip(raw));
            match marker_of(raw) {
                Some(m) => contains_pat(left, m) ==> left =~= left.take(first_pat(left, m)) + m
                    + seq![' '],
                None => true,
            }
        }),
    ensures
        concat_texts(line_model(raw)) =~= raw,
{
    lemma_single_subline(raw);
    lemma_ip_concat_texts(raw);
}

/// Plain fallback: a raw line with no digit-dot-digit pattern anywhere
/// yields a single plain segment holding the full original raw line.
pub proof fn lemma_no_ddd_single_plain(raw: Seq<char>)
    requires
        !has_ddd(raw),
    ensures
        line_model(raw) =~= seq![plain(raw)],
{
    lemma_sublines_no_ip(raw);
    lemma_split_sublines_len(raw);
    lemma_fold_all_plain(split_sublines(raw), raw, Seq::empty());
}

/// Under a raw line with no digit-dot-digit pattern, no sub-line of its
/// delimiter split contains an IPv4-shaped match.
proof fn lemma_sublines_no_ip(raw: Seq<char>)
    requires
        !has_ddd(raw),
    ensures
        forall|k: int|
            0 <= k < split_sublines(raw).len() ==> !has_ip(#[trigger] split_sublines(raw)[k]),
    decreases raw.len(),
{
    if contains_pat(raw, delim()) {
        lemma_first_pat_found(raw, delim(), 0);
        let p = first_pat(raw, delim());
        let head = raw.take(p);
        let tail = raw.skip(p + 4);
        assert(!has_ddd(head)) by {
            if has_ddd(head) {
                let i = choose|i: int|
                    0 <= i && i + 2 < head.len() && #[trigger] is_digit(head[i])
                        && head[i + 1] == '.' && is_digit(head[i + 2]);
                assert(0 <= i && i + 2 < raw.len() && is_digit(raw[i]) && raw[i + 1]
                    == '.' && is_digit(raw[i + 2]));
            }
        };
        assert(!has_ddd(tail)) by {
            if has_ddd(tail) {
                let i = choose|i: int|
                    0 <= i && i + 2 < tail.len() && #[trigger] is_digit(tail[i])
                        && tail[i + 1] == '.' && is_digit(tail[i + 2]);
                let j = i + p + 4;
                assert(0 <= j && j + 2 < raw.len() && is_digit(raw[j]) && raw[j + 1]
                    == '.' && is_digit(raw[j + 2]));
            }
        };
        assert(!has_ip(head)) by {
            if has_ip(head) {
                let i = choose|i: int| ip_match_at(head, i);
                lemma_ip_match_has_ddd(head, i);
            }
        };
        lemma_sublines_no_ip(tail);
        assert(split_sublines(raw) == seq![head] + split_sublines(tail));
        assert(forall|k: int|
            0 <= k < split_sublines(raw).len() ==> !has_ip(#[trigger] split_sublines(raw)[k])) by {
            assert(split_sublines(raw)[0] == head);
            assert(forall|k: int|
                1 <= k < split_sublines(raw).len() ==> #[trigger] split_sublines(raw)[k]
                    == split_sublines(tail)[k - 1]);
        };
    } else {
        assert(!has_ip(raw)) by {
            if has_ip(raw) {
                let i = choose|i: int| ip_match_at(raw, i);
                lemma_ip_match_has_ddd(raw, i);
            }
        };
        assert(split_sublines(raw) == seq![raw]);
    }
}

/// Folding sub-lines that all lack an address ends in the single plain
/// fallback segment, whatever was accumulated before.
proof fn lemma_fold_all_plain(subs: Seq<Seq<char>>, raw: Seq<char>, acc: Seq<SegModel>)
    requires
        subs.len() >= 1,
        forall|k: int| 0 <= k < subs.len() ==> !has_ip(#[trigger] subs[k]),
    ensures
        fold_sublines(subs, raw, acc) =~= seq![plain(raw)],
    decreases subs.len(),
{
    let acc2 = step_subline(acc, subs[0], raw);
    assert(acc2 =~= seq![plain(raw)]);
    assert(fold_sublines(subs, raw, acc) == fold_sublines(subs.drop_first(), raw, acc2));
    if subs.len() == 1 {
        assert(subs.drop_first().len() == 0);
    } else {
        assert(forall|k: int|
            0 <= k < subs.drop_first().len() ==> !has_ip(#[trigger] subs.drop_first()[k])) by {
            assert(forall|k: int|
                0 <= k < subs.drop_first().len() ==> #[trigger] subs.drop_first()[k] == subs[k
                    + 1]);
        };
        lemma_fold_all_plain(subs.drop_first(), raw, acc2);
    }
}

/// Keyword precedence: when "Ban" occurs in the left part (before the
/// leftmost address) of a delimiter-free raw line, the styled line is
/// the four segments with the marker "Ban" — whether or not "Found"
/// occurs anywhere in the line.
pub proof fn lemma_ban_precedence(raw: Seq<char>)
    requires
        !contains_pat(raw, delim()),
        has_ip(raw),
        contains_pat(raw.take(first_ip(raw)), kw_ban()),
    ensures
        ({
            let p = first_ip(raw);
            let l = ip_match_len(raw, p);
            let left = raw.take(p);
            let q = first_pat(left, kw_ban());
            line_model(raw) =~= seq![
                plain(left.take(q)),
                keyword(kw_ban().push(' ')),
                address(raw.subrange(p, p + l)),
                plain(raw.skip(p + l)),
            ]
        }),
{
    lemma_single_subline(raw);
    lemma_first_ip_found(raw, 0);
    let p = first_ip(raw);
    let left = raw.take(p);
    let j = choose|j: int| pat_at(left, kw_ban(), j);
    assert(pat_at(raw, kw_ban(), j)) by {
        assert(raw.subrange(j, j + 3) =~= left.subrange(j, j + 3));
    };
    assert(marker_of(raw) == Some(kw_ban()));
}

/// Delimiter segmentation: a raw line made of two delimiter-free parts
/// joined by the delimiter, where each part contains an address and the
/// junction adds no stray "+", is styled as the two parts' segment
/// groups, independently processed and concatenated in order.
pub proof fn lemma_delimiter_segmentation(a: Seq<char>, b: Seq<char>)
    requires
        !contains_pat(a, delim()),
        !contains_pat(b, delim()),
        a.len() == 0 || a[a.len() - 1] != '+',
        b.len() == 0 || b[0] != '+',
        has_ip(a),
        has_ip(b),
    ensures
        line_model(a + delim() + b) =~= ip_segments(a) + ip_segments(b),
{
    let s = a + delim() + b;
    let al = a.len() as int;
    assert(delim()[0] == '+' && delim()[1] == '+' && delim()[2] == '+' && delim()[3] == '+');
    assert(pat_at(s, delim(), al)) by {
        assert(s.subrange(al, al + 4) =~= delim());
    };
    assert forall|j: int| 0 <= j < al implies !pat_at(s, delim(), j) by {
        if pat_at(s, delim(), j) {
            if j + 4 <= al {
                assert(pat_at(a, delim(), j)) by {
                    assert(a.subrange(j, j + 4) =~= s.subrange(j, j + 4));
                };
                assert(false);
            } else {
                let t = al - 1 - j;
                assert(0 <= t < 4);
                assert(s.subrange(j, j + 4)[t] == delim()[t]);
                assert(t == 0 || t == 1 || t == 2 || t == 3);
                assert(s[al - 1] == '+');
                assert(a[al - 1] == '+');
                assert(false);
            }
        }
    };
    lemma_first_pat_found(s, delim(), 0);
    assert(first_pat(s, delim()) == al);
    assert(contains_pat(s, delim()));
    assert(s.take(al) =~= a);
    assert(s.skip(al + 4) =~= b);
    assert(split_sublines(b) == seq![b]);
    assert(split_sublines(s) == seq![a] + split_sublines(b));
    let subs = seq![a, b];
    assert(split_sublines(s) =~= subs);
    let acc1 = step_subline(Seq::empty(), a, s);
    assert(acc1 =~= ip_segments(a));
    let acc2 = step_subline(acc1, b, s);
    assert(acc2 =~= ip_segments(a) + ip_segments(b));
    assert(subs.drop_first() =~= seq![b]);
    assert(seq![b].drop_first().len() == 0);
    assert(fold_sublines(subs, s, Seq::empty()) == fold_sublines(seq![b], s, acc1));
    assert(fold_sublines(seq![b], s, acc1) == fold_sublines(seq![b].drop_first(), s, acc2));
    assert(fold_sublines(seq![b].drop_first(), s, acc2) == acc2);
}

} // verus!
