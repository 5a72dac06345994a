use vstd::prelude::*;

use crate::query::{
    eval_filter, lemma_matching_empty, lemma_matching_first, lemma_matching_skip, matching, Filter,
};
use crate::record::{clone_record, Record, RecordView};

verus! {

/// A lazy, store-backed sequence of matching records: a snapshot of one
/// collection walked on demand, single-pass, yielding each match in the
/// store's natural order without materializing the result set.
pub struct ModelCursor {
    pub(crate) items: Vec<Record>,
    pub(crate) filter: Filter,
    pub(crate) pos: usize,
}

impl ModelCursor {
    /// A fresh cursor over a snapshot: every match is still pending.
    pub(crate) fn from_snapshot(items: Vec<Record>, filter: Filter) -> (c: ModelCursor)
        ensures
            c.wf(),
            c.pending() == matching(items.deep_view(), filter@),
    {
        let c = ModelCursor { items, filter, pos: 0 };
        proof {
            assert(c.items.deep_view().skip(0) =~= c.items.deep_view());
        }
        c
    }

    /// The walk position never passes the snapshot's end.
    pub closed spec fn wf(&self) -> bool {
        self.pos <= self.items.len()
    }

    /// The matches not yet yielded, in order.
    pub closed spec fn pending(&self) -> Seq<RecordView> {
        matching(self.items.deep_view().skip(self.pos as int), self.filter@)
    }

    /// The next match, advancing past it; an empty optional once the
    /// cursor is exhausted.
    pub fn next(&mut self) -> (res: Option<Record>)
        requires
            old(self).wf(),
        ensures
            final(self).wf(),
            match res {
                Some(r) => old(self).pending().len() > 0 && r@ == old(self).pending()[0]
                    && final(self).pending() == old(self).pending().drop_first(),
                None => old(self).pending().len() == 0 && final(self).pending().len() == 0,
            },
    {
        let ghost rem = self.items.deep_view().skip(old(self).pos as int);
        let ghost f = self.filter@;
        let n = self.items.len();
        let mut j: usize = self.pos;
        while j < n
            invariant
                n == self.items.len(),
                self.pos <= j <= n,
                *self == *old(self),
                rem == self.items.deep_view().skip(self.pos as int),
                f == self.filter@,
                forall|k: int|
                    self.pos <= k < j ==> !crate::query::filter_matches(
                        f,
                        #[trigger] self.items.deep_view()[k],
                    ),
            decreases n - j,
        {
            if eval_filter(&self.filter, &self.items[j]) {
                let out = clone_record(&self.items[j]);
                proof {
                    let p = self.pos as int;
                    assert forall|t: int| 0 <= t < j - p implies !crate::query::filter_matches(
                        f,
                        #[trigger] rem[t],
                    ) by {
                        assert(rem[t] == self.items.deep_view()[p + t]);
                    }
                    lemma_matching_skip(rem, f, j - p);
                    let rem2 = rem.skip(j - p);
                    assert(rem2.len() > 0 && rem2[0] == self.items.deep_view()[j as int]);
                    lemma_matching_first(rem2, f);
                    assert(rem2.drop_first() =~= self.items.deep_view().skip(j + 1));
                    assert(matching(rem, f) == seq![rem2[0]].add(
                        matching(self.items.deep_view().skip(j + 1), f),
                    ));
                    assert(matching(rem, f)[0] == rem2[0]);
                    assert(matching(rem, f).drop_first() =~= matching(
                        self.items.deep_view().skip(j + 1),
                        f,
                    ));
                }
                self.pos = j + 1;
                return Some(out);
            }
            j = j + 1;
        }
        proof {
            let p = self.pos as int;
            assert forall|t: int| 0 <= t < rem.len() implies !crate::query::filter_matches(
                f,
                #[trigger] rem[t],
            ) by {
                assert(rem[t] == self.items.deep_view()[p + t]);
            }
            lemma_matching_skip(rem, f, rem.len() as int);
            assert(rem.skip(rem.len() as int) =~= Seq::<RecordView>::empty());
            lemma_matching_empty(f);
            assert(self.items.deep_view().skip(n as int) =~= Seq::<RecordView>::empty());
        }
        self.pos = n;
        None
    }

    /// Drains the cursor, collecting every remaining match in order.
    pub fn collect_all(&mut self) -> (out: Vec<Record>)
        requires
            old(self).wf(),
        ensures
            final(self).wf(),
            out.deep_view() == old(self).pending(),
            final(self).pending().len() == 0,
    {
        let mut out: Vec<Record> = Vec::new();
        loop
            invariant
                self.wf(),
                old(self).pending() == out.deep_view() + self.pending(),
            decreases self.pending().len(),
        {
            let ghost before = self.pending();
            match self.next() {
                Some(r) => {
                    out.push(r);
                    proof {
                        assert(out.deep_view() + self.pending() =~= old(self).pending());
                    }
                },
                None => {
                    proof {
                        assert(out.deep_view() =~= old(self).pending());
                    }
                    return out;
                },
            }
        }
    }
}

} // verus!
