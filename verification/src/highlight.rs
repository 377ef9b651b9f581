//! Log-line highlighting: from raw text to styled, render-ready lines.
//!
//! A delivered raw line may batch several logical sub-lines, joined by
//! the fixed delimiter. Each sub-line is searched for the leftmost
//! IPv4-shaped substring; around a found address the sub-line is
//! partitioned into a plain prefix, an optional keyword marker, the
//! address, and the plain rest. A sub-line without an address falls
//! back to a single plain segment holding the full original raw line,
//! replacing anything built so far for that line.

use vstd::prelude::*;
use vstd::string::*;

use crate::pattern::{
    contains_pat, delim, find_ip, find_pat, first_ip, first_pat, has_ip, ip_match_len, kw_ban,
    kw_found, split_sublines,
};
use crate::selectable_list::SelectableList;
use crate::style::{
    address, keyword, line_views, plain, seg_views, string_views, SegModel, Segment, Style,
    StyledLine,
};

verus! {

/// The keyword split-marker of a sub-line: "Ban" when the sub-line
/// contains it anywhere, else "Found" when the sub-line contains that,
/// else none. Detection is case-sensitive, and "Ban" wins over "Found".
pub open spec fn marker_of(s: Seq<char>) -> Option<Seq<char>> {
    if contains_pat(s, kw_ban()) {
        Some(kw_ban())
    } else if contains_pat(s, kw_found()) {
        Some(kw_found())
    } else {
        None
    }
}

/// The styled segments of a sub-line that contains an address: the sub-line
/// is partitioned at the leftmost address match into a left part and a
/// right part; when the detected marker occurs in the left part, the left
/// part is partitioned again at the marker's first occurrence, and the
/// marker is emitted as a keyword segment with a trailing space.
pub open spec fn ip_segments(sub: Seq<char>) -> Seq<SegModel> {
    let p = first_ip(sub);
    let l = ip_match_len(sub, p);
    let left = sub.take(p);
    let addr = sub.subrange(p, p + l);
    let right = sub.skip(p + l);
    match marker_of(sub) {
        Some(m) => if contains_pat(left, m) {
            let q = first_pat(left, m);
            seq![plain(left.take(q)), keyword(m.push(' ')), address(addr), plain(right)]
        } else {
            seq![plain(left), address(addr), plain(right)]
        },
        None => seq![plain(left), address(addr), plain(right)],
    }
}

/// One sub-line's effect on the styled line built so far: a sub-line with
/// an address appends its segments; one without replaces everything with
/// a single plain segment holding the full original raw line.
pub open spec fn step_subline(acc: Seq<SegModel>, sub: Seq<char>, raw: Seq<char>) -> Seq<SegModel> {
    if has_ip(sub) {
        acc + ip_segments(sub)
    } else {
        seq![plain(raw)]
    }
}

pub open spec fn fold_sublines(
    subs: Seq<Seq<char>>,
    raw: Seq<char>,
    acc: Seq<SegModel>,
) -> Seq<SegModel>
    decreases subs.len(),
{
    if subs.len() == 0 {
        acc
    } else {
        fold_sublines(subs.drop_first(), raw, step_subline(acc, subs[0], raw))
    }
}

/// The styled representation of one raw line: its sub-lines processed in
/// order, starting from no segments. A pure function of the raw text.
pub open spec fn line_model(raw: Seq<char>) -> Seq<SegModel> {
    fold_sublines(split_sublines(raw), raw, Seq::empty())
}

pub proof fn lemma_fold_step(subs: Seq<Seq<char>>, raw: Seq<char>, acc: Seq<SegModel>, k: int)
    requires
        0 <= k < subs.len(),
    ensures
        fold_sublines(subs.skip(k), raw, acc) == fold_sublines(
            subs.skip(k + 1),
            raw,
            step_subline(acc, subs[k], raw),
        ),
{
    assert(subs.skip(k).len() > 0);
    assert(subs.skip(k)[0] == subs[k]);
    assert(subs.skip(k).drop_first() =~= subs.skip(k + 1));
}

/// Splits a raw line on every occurrence of the fixed delimiter "++++".
pub fn split_delim(s: &str) -> (r: Vec<String>)
    ensures
        r@.len() >= 1,
        string_views(r@) == split_sublines(s@),
    decreases s@.len(),
{
    let n = s.unicode_len();
    proof {
        reveal_strlit("++++");
        assert("++++"@ =~= delim());
    }
    match find_pat(s, n, "++++", 4) {
        None => {
            let mut v: Vec<String> = Vec::new();
            v.push(s.to_owned());
            proof {
                assert(string_views(v@) =~= split_sublines(s@));
            }
            v
        },
        Some(p) => {
            let head = s.substring_char(0, p).to_owned();
            let tail = s.substring_char(p + 4, n);
            proof {
                assert(tail@ =~= s@.skip(p + 4));
            }
            let mut rest = split_delim(tail);
            let mut v: Vec<String> = Vec::new();
            v.push(head);
            v.append(&mut rest);
            proof {
                assert(head@ =~= s@.take(p as int));
                assert(string_views(v@) =~= seq![s@.take(p as int)] + split_sublines(
                    s@.skip(p + 4),
                ));
            }
            v
        },
    }
}

/// Computes the styled representation of one raw line.
pub fn highlight_line(raw: &str) -> (r: StyledLine)
    ensures
        r@ == line_model(raw@),
{
    let sublines = split_delim(raw);
    let ghost subs = split_sublines(raw@);
    let mut segs: Vec<Segment> = Vec::new();
    let mut idx: usize = 0;
    proof {
        assert(subs.skip(0) =~= subs);
        assert(seg_views(segs@) =~= Seq::<SegModel>::empty());
    }
    while idx < sublines.len()
        invariant
            0 <= idx <= sublines.len(),
            string_views(sublines@) == subs,
            fold_sublines(subs, raw@, Seq::empty()) == fold_sublines(
                subs.skip(idx as int),
                raw@,
                seg_views(segs@),
            ),
        decreases sublines.len() - idx,
    {
        let ghost pre = seg_views(segs@);
        let sub: &String = &sublines[idx];
        let sub_str: &str = sub.as_str();
        let n = sub_str.unicode_len();
        proof {
            assert(sub@ == subs[idx as int]);
        }
        match find_ip(sub_str, n) {
            Some((p, l)) => {
                let left: &str = sub_str.substring_char(0, p);
                let addr = sub_str.substring_char(p, p + l).to_owned();
                let right = sub_str.substring_char(p + l, n).to_owned();
                proof {
                    reveal_strlit("Ban");
                    reveal_strlit("Found");
                    assert("Ban"@ =~= kw_ban());
                    assert("Found"@ =~= kw_found());
                    assert(left@ =~= sub@.take(p as int));
                }
                let marker: Option<(&str, usize)> = if find_pat(sub_str, n, "Ban", 3).is_some() {
                    Some(("Ban", 3))
                } else if find_pat(sub_str, n, "Found", 5).is_some() {
                    Some(("Found", 5))
                } else {
                    None
                };
                let mut prefix_kw: Option<(String, String)> = None;
                if let Some((mk, mlen)) = marker {
                    if let Some(q) = find_pat(left, p, mk, mlen) {
                        let prefix = left.substring_char(0, q).to_owned();
                        let mut kw = mk.to_owned();
                        kw.append(" ");
                        proof {
                            reveal_strlit(" ");
                            assert(kw@ =~= mk@.push(' '));
                        }
                        prefix_kw = Some((prefix, kw));
                    }
                }
                match prefix_kw {
                    Some((prefix, kw)) => {
                        segs.push(Segment { text: prefix, style: Style::Plain });
                        segs.push(Segment { text: kw, style: Style::Keyword });
                    },
                    None => {
                        segs.push(Segment { text: left.to_owned(), style: Style::Plain });
                    },
                }
                segs.push(Segment { text: addr, style: Style::Address });
                segs.push(Segment { text: right, style: Style::Plain });
                proof {
                    assert(seg_views(segs@) =~~= pre + ip_segments(sub@));
                }
            },
            None => {
                segs = Vec::new();
                segs.push(Segment { text: raw.to_owned(), style: Style::Plain });
                proof {
                    assert(seg_views(segs@) =~~= seq![plain(raw@)]);
                }
            },
        }
        proof {
            lemma_fold_step(subs, raw@, pre, idx as int);
            assert(seg_views(segs@) =~~= step_subline(pre, subs[idx as int], raw@));
        }
        idx = idx + 1;
    }
    proof {
        assert(subs.skip(subs.len() as int) =~= Seq::<Seq<char>>::empty());
    }
    StyledLine { segments: segs }
}

/// Consumes raw log lines and keeps a styled, render-ready cache that
/// always corresponds to the current contents of the raw-log buffer.
///
/// The raw lines live in a [`SelectableList`], whose selection cursor
/// this type forwards; the styled cache is recomputed as lines arrive.
pub struct LogHighlighter {
    log: SelectableList<String>,
    styled: Vec<StyledLine>,
}

impl LogHighlighter {
    /// The raw lines held, as character sequences, in arrival order.
    pub closed spec fn raw_view(self) -> Seq<Seq<char>> {
        string_views(self.log@)
    }

    /// The cached styled lines, as segment-model sequences.
    pub closed spec fn styled_model(self) -> Seq<Seq<SegModel>> {
        line_views(self.styled@)
    }

    /// The selection cursor over the raw-log list.
    pub closed spec fn selected_index(self) -> Option<usize> {
        self.log.selected_index()
    }

    /// The underlying raw-log list is well-formed.
    pub closed spec fn log_wf(self) -> bool {
        self.log.wf()
    }

    /// Well-formedness: the styled cache is exactly the styled
    /// representation of the current raw buffer, line for line.
    pub open spec fn wf(self) -> bool {
        &&& self.log_wf()
        &&& self.styled_model() == Seq::new(
            self.raw_view().len(),
            |i: int| line_model(self.raw_view()[i]),
        )
    }

    /// Creates an empty highlighter with nothing buffered or selected.
    pub fn new() -> (r: Self)
        ensures
            r.wf(),
            r.raw_view() =~= Seq::<Seq<char>>::empty(),
            r.styled_model() =~= Seq::<Seq<SegModel>>::empty(),
            r.selected_index() is None,
    {
        let r = LogHighlighter { log: SelectableList::new(), styled: Vec::new() };
        proof {
            assert(r.styled_model() =~= Seq::new(
                r.raw_view().len(),
                |i: int| line_model(r.raw_view()[i]),
            ));
        }
        r
    }

    /// Appends a raw line to the buffer and brings the styled cache up to
    /// date with it. Every input is accepted; the selection is unchanged.
    pub fn ingest(&mut self, raw_line: String)
        requires
            old(self).wf(),
        ensures
            final(self).wf(),
            final(self).raw_view() == old(self).raw_view().push(raw_line@),
            final(self).styled_model() == old(self).styled_model().push(line_model(raw_line@)),
            final(self).selected_index() == old(self).selected_index(),
    {
        let styled = highlight_line(raw_line.as_str());
        self.log.append(raw_line);
        self.styled.push(styled);
        proof {
            assert(final(self).raw_view() =~= old(self).raw_view().push(raw_line@));
            assert(final(self).styled_model() =~= old(self).styled_model().push(
                line_model(raw_line@),
            ));
            assert(final(self).styled_model() =~= Seq::new(
                final(self).raw_view().len(),
                |i: int| line_model(final(self).raw_view()[i]),
            ));
        }
    }

    /// Recomputes the entire styled cache from the raw buffer. The result
    /// is the same as the cache the other operations maintain: recomputing
    /// is idempotent and deterministic.
    pub fn highlight_io(&mut self)
        requires
            old(self).log_wf(),
        ensures
            final(self).wf(),
            final(self).raw_view() == old(self).raw_view(),
            final(self).selected_index() == old(self).selected_index(),
    {
        let mut styled: Vec<StyledLine> = Vec::new();
        let mut i: usize = 0;
        let total = self.log.len();
        while i < total
            invariant
                0 <= i <= total,
                total == self.log@.len(),
                styled@.len() == i,
                forall|k: int| 0 <= k < i ==> styled@[k]@ == line_model(self.log@[k]@),
            decreases total - i,
        {
            let line = highlight_line(self.log.get(i).as_str());
            styled.push(line);
            i = i + 1;
        }
        self.styled = styled;
        proof {
            assert(final(self).styled_model() =~= Seq::new(
                final(self).raw_view().len(),
                |k: int| line_model(final(self).raw_view()[k]),
            ));
        }
    }

    /// Read-only access to the styled cache.
    pub fn styled_view(&self) -> (r: &Vec<StyledLine>)
        ensures
            line_views(r@) == self.styled_model(),
    {
        &self.styled
    }

    /// Read-only access to the raw lines buffered so far.
    pub fn raw_lines(&self) -> (r: &Vec<String>)
        ensures
            string_views(r@) == self.raw_view(),
    {
        self.log.items()
    }

    /// The number of buffered lines.
    pub fn len(&self) -> (n: usize)
        ensures
            n == self.raw_view().len(),
    {
        self.log.len()
    }

    /// The current selection cursor over the log lines, if any.
    pub fn selected(&self) -> (r: Option<usize>)
        ensures
            r == self.selected_index(),
    {
        self.log.selected()
    }

    /// Removes the oldest raw lines and their styled lines until at most
    /// `max_length` remain; a selection that no longer indexes into the
    /// shortened buffer is cleared.
    pub fn evict_to(&mut self, max_length: usize)
        requires
            old(self).wf(),
        ensures
            final(self).wf(),
            final(self).raw_view() == old(self).raw_view().skip(
                if old(self).raw_view().len() <= max_length {
                    0int
                } else {
                    old(self).raw_view().len() - max_length
                },
            ),
            final(self).styled_model() == old(self).styled_model().skip(
                if old(self).raw_view().len() <= max_length {
                    0int
                } else {
                    old(self).raw_view().len() - max_length
                },
            ),
            final(self).selected_index() == (match old(self).selected_index() {
                Some(i) => if (i as int) < final(self).raw_view().len() {
                    Some(i)
                } else {
                    None::<usize>
                },
                None => None::<usize>,
            }),
    {
        let ghost orig: Seq<StyledLine> = self.styled@;
        self.log.evict_to(max_length);
        let ghost log_after: SelectableList<String> = self.log;
        while self.styled.len() > max_length
            invariant
                self.styled@ =~= orig.skip(orig.len() - self.styled@.len()),
                self.styled@.len() <= orig.len(),
                orig.len() > max_length ==> self.styled@.len() >= max_length,
                orig.len() <= max_length ==> self.styled@.len() == orig.len(),
                self.log == log_after,
            decreases self.styled@.len(),
        {
            self.styled.remove(0);
        }
        proof {
            let excess = if old(self).raw_view().len() <= max_length {
                0int
            } else {
                old(self).raw_view().len() - max_length
            };
            assert(final(self).raw_view() =~= old(self).raw_view().skip(excess));
            assert(final(self).styled_model() =~= old(self).styled_model().skip(excess));
            assert(final(self).styled_model() =~= Seq::new(
                final(self).raw_view().len(),
                |i: int| line_model(final(self).raw_view()[i]),
            ));
        }
    }

    /// Moves the log selection forward, wrapping past the newest line;
    /// a no-op on an empty buffer.
    pub fn select_next(&mut self)
        requires
            old(self).wf(),
        ensures
            final(self).wf(),
            final(self).raw_view() == old(self).raw_view(),
            final(self).styled_model() == old(self).styled_model(),
            final(self).selected_index() == (if old(self).raw_view().len() == 0 {
                old(self).selected_index()
            } else {
                match old(self).selected_index() {
                    None => Some(0usize),
                    Some(i) => if i + 1 == old(self).raw_view().len() {
                        Some(0usize)
                    } else {
                        Some((i + 1) as usize)
                    },
                }
            }),
    {
        self.log.select_next();
    }

    /// Moves the log selection backward, wrapping past the oldest line;
    /// a no-op on an empty buffer.
    pub fn select_previous(&mut self)
        requires
            old(self).wf(),
        ensures
            final(self).wf(),
            final(self).raw_view() == old(self).raw_view(),
            final(self).styled_model() == old(self).styled_model(),
            final(self).selected_index() == (if old(self).raw_view().len() == 0 {
                old(self).selected_index()
            } else {
                match old(self).selected_index() {
                    None => Some(0usize),
                    Some(i) => if i == 0 {
                        Some((old(self).raw_view().len() - 1) as usize)
                    } else {
                        Some((i - 1) as usize)
                    },
                }
            }),
    {
        self.log.select_previous();
    }

    /// Clears the log selection.
    pub fn clear_selection(&mut self)
        requires
            old(self).wf(),
        ensures
            final(self).wf(),
            final(self).raw_view() == old(self).raw_view(),
            final(self).styled_model() == old(self).styled_model(),
            final(self).selected_index() is None,
    {
        self.log.clear_selection();
    }
}

} // verus!
