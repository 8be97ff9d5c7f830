//! Grouping cleaned lines into bounded, ordered batches.
//!
//! Batches are the unit of parallel work downstream; their boundaries are
//! invisible in the output.  The laws here say exactly that: however the
//! batch capacity is chosen, the batches concatenate back to the cleaned
//! line sequence in input order, with no loss or duplication.

use vstd::prelude::*;
use crate::framing::clean_line;
use crate::framing::clean_line_spec;

verus! {

/// How many lines a full batch holds.
pub const BATCH_CAPACITY: usize = 1024;

/// The cleaned form of a line sequence: framing artifacts dropped,
/// continuation markers stripped, order kept.
pub open spec fn cleaned_lines(lines: Seq<Seq<char>>) -> Seq<Seq<char>>
    decreases lines.len(),
{
    if lines.len() == 0 {
        Seq::empty()
    } else {
        cleaned_lines(lines.drop_last()) + match clean_line_spec(lines.last()) {
            Some(c) => seq![c],
            None => Seq::<Seq<char>>::empty(),
        }
    }
}

/// All batches joined back into one line sequence, in batch order.
pub open spec fn concat_batches(bs: Seq<Seq<Seq<char>>>) -> Seq<Seq<char>>
    decreases bs.len(),
{
    if bs.len() == 0 {
        Seq::empty()
    } else {
        concat_batches(bs.drop_last()) + bs.last()
    }
}

/// The line sequence `s` cut into consecutive batches of `cap` lines, the
/// last batch holding whatever remains.
pub open spec fn chunked(s: Seq<Seq<char>>, cap: int) -> Seq<Seq<Seq<char>>>
    decreases s.len() when cap >= 1
{
    if s.len() == 0 {
        Seq::empty()
    } else if s.len() <= cap {
        seq![s]
    } else {
        seq![s.take(cap)] + chunked(s.skip(cap), cap)
    }
}

proof fn lemma_concat_batches_single(b: Seq<Seq<char>>)
    ensures
        concat_batches(seq![b]) == b,
{
    assert(seq![b].drop_last() =~= Seq::<Seq<Seq<char>>>::empty());
    assert(concat_batches(Seq::<Seq<Seq<char>>>::empty()) + b =~= b);
}

proof fn lemma_concat_batches_cons(first: Seq<Seq<char>>, bs: Seq<Seq<Seq<char>>>)
    ensures
        concat_batches(seq![first] + bs) == first + concat_batches(bs),
    decreases bs.len(),
{
    if bs.len() == 0 {
        assert(seq![first] + bs =~= seq![first]);
        lemma_concat_batches_single(first);
        assert(first + concat_batches(bs) =~= first);
    } else {
        assert((seq![first] + bs).drop_last() =~= seq![first] + bs.drop_last());
        assert((seq![first] + bs).last() == bs.last());
        lemma_concat_batches_cons(first, bs.drop_last());
        assert(first + concat_batches(bs.drop_last()) + bs.last() =~= first + concat_batches(bs));
    }
}

/// Cutting a line sequence into batches loses nothing and reorders
/// nothing: the batches concatenate back to the sequence itself.
pub proof fn lemma_chunked_concat(s: Seq<Seq<char>>, cap: int)
    requires
        cap >= 1,
    ensures
        concat_batches(chunked(s, cap)) == s,
    decreases s.len(),
{
    if s.len() == 0 {
    } else if s.len() <= cap {
        lemma_concat_batches_single(s);
    } else {
        lemma_chunked_concat(s.skip(cap), cap);
        lemma_concat_batches_cons(s.take(cap), chunked(s.skip(cap), cap));
        assert(s.take(cap) + s.skip(cap) =~= s);
    }
}

/// Order preservation across batching: whichever batch capacity is
/// chosen, the batches of a cleaned input concatenate to the same
/// sequence — the cleaned input itself.
pub proof fn lemma_batching_preserves_order(lines: Seq<Seq<char>>, cap_a: int, cap_b: int)
    requires
        cap_a >= 1,
        cap_b >= 1,
    ensures
        concat_batches(chunked(cleaned_lines(lines), cap_a)) == cleaned_lines(lines),
        concat_batches(chunked(cleaned_lines(lines), cap_a)) == concat_batches(
            chunked(cleaned_lines(lines), cap_b),
        ),
{
    lemma_chunked_concat(cleaned_lines(lines), cap_a);
    lemma_chunked_concat(cleaned_lines(lines), cap_b);
}

/// The batching a streaming batcher produces: some full batches, then the
/// remainder, is exactly `chunked`.
proof fn lemma_chunked_of_full_batches(
    done: Seq<Seq<Seq<char>>>,
    rest: Seq<Seq<char>>,
    cap: int,
)
    requires
        cap >= 1,
        0 <= rest.len() < cap,
        forall|b: int| 0 <= b < done.len() ==> (#[trigger] done[b]).len() == cap,
    ensures
        chunked(concat_batches(done) + rest, cap) == done + (if rest.len() == 0 {
            Seq::<Seq<Seq<char>>>::empty()
        } else {
            seq![rest]
        }),
    decreases done.len(),
{
    if done.len() == 0 {
        if rest.len() == 0 {
            assert(concat_batches(done) + rest =~= Seq::<Seq<char>>::empty());
            assert(chunked(concat_batches(done) + rest, cap) =~= done);
        } else {
            assert(concat_batches(done) + rest =~= rest);
            assert(chunked(concat_batches(done) + rest, cap) =~= done + seq![rest]);
        }
    } else {
        let first = done[0];
        let tail = done.skip(1);
        assert(done =~= seq![first] + tail);
        lemma_concat_batches_cons(first, tail);
        let s = concat_batches(done) + rest;
        assert(s =~= first + (concat_batches(tail) + rest));
        assert(forall|b: int| 0 <= b < tail.len() ==> (#[trigger] tail[b]).len() == cap) by {
            assert(forall|b: int| 0 <= b < tail.len() ==> tail[b] == done[b + 1]);
        }
        lemma_chunked_of_full_batches(tail, rest, cap);
        if s.len() <= cap {
            // only possible when tail and rest are both empty
            assert(concat_batches(tail) + rest =~= Seq::<Seq<char>>::empty());
            assert(s =~= first);
            assert(chunked(s, cap) =~= done + Seq::<Seq<Seq<char>>>::empty());
        } else {
            assert(s.take(cap) =~= first);
            assert(s.skip(cap) =~= concat_batches(tail) + rest);
            assert(chunked(s, cap) =~= seq![first] + chunked(concat_batches(tail) + rest, cap));
            assert(seq![first] + (tail + (if rest.len() == 0 {
                Seq::<Seq<Seq<char>>>::empty()
            } else {
                seq![rest]
            })) =~= done + (if rest.len() == 0 {
                Seq::<Seq<Seq<char>>>::empty()
            } else {
                seq![rest]
            }));
        }
    }
}

/// The streaming framer/batcher: feed it raw lines one at a time; it
/// cleans them, keeps order, and hands out a batch whenever one fills.
pub struct Batcher {
    cap: usize,
    pending: Vec<String>,
}

impl Batcher {
    /// The batch capacity this batcher was made with.
    pub closed spec fn cap_spec(&self) -> int {
        self.cap as int
    }

    /// The cleaned lines accumulated toward the next batch.
    pub closed spec fn pending_view(&self) -> Seq<Seq<char>> {
        self.pending.deep_view()
    }

    /// A batcher always holds fewer pending lines than one batch.
    pub open spec fn wf(&self) -> bool {
        1 <= self.cap_spec() && self.pending_view().len() < self.cap_spec()
    }

    /// Makes an empty batcher that emits batches of `cap` lines.
    pub fn new(cap: usize) -> (b: Batcher)
        requires
            cap >= 1,
        ensures
            b.wf(),
            b.cap_spec() == cap,
            b.pending_view() == Seq::<Seq<char>>::empty(),
    {
        let b = Batcher { cap, pending: Vec::new() };
        proof {
            assert(b.pending_view() =~= Seq::<Seq<char>>::empty());
        }
        b
    }

    /// Feeds one raw line.  A framing artifact changes nothing; any other
    /// line joins the pending batch, and the batch is emitted once it
    /// holds `cap` lines.
    pub fn push(&mut self, line: &str) -> (emitted: Option<Vec<String>>)
        requires
            old(self).wf(),
        ensures
            final(self).wf(),
            final(self).cap_spec() == old(self).cap_spec(),
            match clean_line_spec(line@) {
                None => final(self).pending_view() == old(self).pending_view() && emitted
                    is None,
                Some(c) => {
                    if old(self).pending_view().len() + 1 == old(self).cap_spec() {
                        &&& emitted matches Some(batch) && batch.deep_view() == old(
                            self,
                        ).pending_view().push(c)
                        &&& final(self).pending_view() == Seq::<Seq<char>>::empty()
                    } else {
                        &&& emitted is None
                        &&& final(self).pending_view() == old(self).pending_view().push(c)
                    }
                },
            },
    {
        match clean_line(line) {
            None => None,
            Some(cleaned) => {
                self.pending.push(cleaned);
                proof {
                    assert(self.pending_view() =~= old(self).pending_view().push(
                        self.pending@.last()@,
                    ));
                }
                if self.pending.len() == self.cap {
                    let mut full: Vec<String> = Vec::new();
                    core::mem::swap(&mut full, &mut self.pending);
                    proof {
                        assert(self.pending_view() =~= Seq::<Seq<char>>::empty());
                    }
                    Some(full)
                } else {
                    None
                }
            },
        }
    }

    /// Ends the stream: hands out the final partial batch, or nothing if
    /// no batch was under way.
    pub fn finish(self) -> (r: Option<Vec<String>>)
        ensures
            match r {
                None => self.pending_view().len() == 0,
                Some(batch) => batch.deep_view() == self.pending_view() && batch.deep_view().len()
                    > 0,
            },
    {
        if self.pending.len() == 0 {
            None
        } else {
            Some(self.pending)
        }
    }
}

/// Cleans and batches a whole line sequence at once: the batches are
/// exactly `chunked(cleaned_lines(..), cap)`, so they concatenate back to
/// the cleaned input in order.
pub fn make_batches(lines: &Vec<String>, cap: usize) -> (batches: Vec<Vec<String>>)
    requires
        cap >= 1,
    ensures
        batches.deep_view() == chunked(cleaned_lines(lines.deep_view()), cap as int),
        concat_batches(batches.deep_view()) == cleaned_lines(lines.deep_view()),
{
    let mut batcher = Batcher::new(cap);
    let mut batches: Vec<Vec<String>> = Vec::new();
    let ghost all = lines.deep_view();
    proof {
        assert(batches.deep_view() =~= Seq::<Seq<Seq<char>>>::empty());
        assert(cleaned_lines(all.take(0)) =~= Seq::<Seq<char>>::empty());
        assert(concat_batches(batches.deep_view()) + batcher.pending_view() =~= cleaned_lines(
            all.take(0),
        ));
    }
    let mut i: usize = 0;
    while i < lines.len()
        invariant
            i <= lines@.len(),
            all == lines.deep_view(),
            all.len() == lines@.len(),
            batcher.wf(),
            batcher.cap_spec() == cap as int,
            cap >= 1,
            concat_batches(batches.deep_view()) + batcher.pending_view() == cleaned_lines(
                all.take(i as int),
            ),
            forall|b: int|
                0 <= b < batches.deep_view().len() ==> (#[trigger] batches.deep_view()[b]).len()
                    == cap as int,
        decreases lines@.len() - i,
    {
        proof {
            assert(all.take(i + 1).drop_last() =~= all.take(i as int));
            assert(all.take(i + 1).last() == all[i as int]);
            assert(lines@[i as int].deep_view() == all[i as int]);
        }
        let ghost old_pending = batcher.pending_view();
        let ghost old_batches = batches.deep_view();
        match batcher.push(lines[i].as_str()) {
            None => {
                proof {
                    match clean_line_spec(all[i as int]) {
                        None => {
                            assert(cleaned_lines(all.take(i + 1)) =~= cleaned_lines(
                                all.take(i as int),
                            ));
                        },
                        Some(c) => {
                            assert(concat_batches(old_batches) + old_pending.push(c)
                                =~= cleaned_lines(all.take(i as int)) + seq![c]);
                            assert(cleaned_lines(all.take(i + 1)) =~= cleaned_lines(
                                all.take(i as int),
                            ) + seq![c]);
                        },
                    }
                }
            },
            Some(full) => {
                batches.push(full);
                proof {
                    let c = clean_line_spec(all[i as int])->Some_0;
                    assert(batches.deep_view() =~= old_batches.push(old_pending.push(c)));
                    assert(batches.deep_view().drop_last() =~= old_batches);
                    assert(concat_batches(batches.deep_view()) =~= concat_batches(old_batches)
                        + old_pending.push(c));
                    assert(concat_batches(old_batches) + old_pending.push(c) =~= cleaned_lines(
                        all.take(i as int),
                    ) + seq![c]);
                    assert(cleaned_lines(all.take(i + 1)) =~= cleaned_lines(all.take(i as int))
                        + seq![c]);
                    assert(concat_batches(batches.deep_view()) + batcher.pending_view()
                        =~= cleaned_lines(all.take(i + 1)));
                    assert(forall|b: int|
                        0 <= b < old_batches.len() ==> (#[trigger] batches.deep_view()[b]).len()
                            == cap as int) by {
                        assert(forall|b: int|
                            0 <= b < old_batches.len() ==> batches.deep_view()[b]
                                == old_batches[b]);
                    }
                }
            },
        }
        i += 1;
    }
    proof {
        assert(all.take(all.len() as int) =~= all);
    }
    let ghost done = batches.deep_view();
    let ghost rest = batcher.pending_view();
    match batcher.finish() {
        None => {
            proof {
                lemma_chunked_of_full_batches(done, rest, cap as int);
                assert(concat_batches(done) + rest =~= concat_batches(done));
                assert(done + Seq::<Seq<Seq<char>>>::empty() =~= done);
                lemma_chunked_concat(cleaned_lines(all), cap as int);
            }
        },
        Some(last_batch) => {
            batches.push(last_batch);
            proof {
                lemma_chunked_of_full_batches(done, rest, cap as int);
                assert(batches.deep_view() =~= done + seq![rest]);
                lemma_chunked_concat(cleaned_lines(all), cap as int);
            }
        },
    }
    batches
}

} // verus!
