//! Decoding of whole files, and the order-stable merge of per-file results.

use vstd::prelude::*;
use crate::daily::{DailyRecord, DailyRecordView, decode_daily_line, spec_decode_daily_line, spec_views};
use crate::errors::{LineError, LineErrorView};

verus! {

/// The records and the per-line errors of one decoded file.
pub struct DailyFileDecode {
    pub records: Vec<DailyRecord>,
    pub errors: Vec<LineError>,
}

pub open spec fn spec_line_texts(lines: Seq<Vec<char>>) -> Seq<Seq<char>> {
    lines.map_values(|l: Vec<char>| l@)
}

pub open spec fn spec_error_views(v: Seq<LineError>) -> Seq<LineErrorView> {
    v.map_values(|e: LineError| e@)
}

/// The records of a file's lines, in line order; a malformed line adds none.
pub open spec fn spec_file_records(lines: Seq<Seq<char>>) -> Seq<DailyRecordView>
    decreases lines.len(),
{
    if lines.len() == 0 {
        Seq::empty()
    } else {
        spec_file_records(lines.drop_last()) + match spec_decode_daily_line(lines.last()) {
            Ok(rs) => rs,
            Err(_) => Seq::empty(),
        }
    }
}

/// One error per malformed line, in line order, with 1-based line numbers.
pub open spec fn spec_file_errors(lines: Seq<Seq<char>>) -> Seq<LineErrorView>
    decreases lines.len(),
{
    if lines.len() == 0 {
        Seq::empty()
    } else {
        let prev = spec_file_errors(lines.drop_last());
        match spec_decode_daily_line(lines.last()) {
            Ok(_) => prev,
            Err(e) => prev.push(LineErrorView { line_no: lines.len() as int, error: e }),
        }
    }
}

/// Decodes the lines of one file in order; a malformed line is reported and
/// contributes no record, and the other lines are decoded as usual.
pub fn decode_daily_file(lines: &Vec<Vec<char>>) -> (r: DailyFileDecode)
    requires
        lines@.len() < usize::MAX,
    ensures
        spec_views(r.records@) == spec_file_records(spec_line_texts(lines@)),
        spec_error_views(r.errors@) == spec_file_errors(spec_line_texts(lines@)),
{
    let ghost texts = spec_line_texts(lines@);
    let mut records: Vec<DailyRecord> = Vec::new();
    let mut errors: Vec<LineError> = Vec::new();
    let mut i: usize = 0;
    assert(texts.take(0) =~= Seq::<Seq<char>>::empty());
    assert(spec_views(records@) =~= Seq::<DailyRecordView>::empty());
    assert(spec_error_views(errors@) =~= Seq::<LineErrorView>::empty());
    while i < lines.len()
        invariant
            i <= lines@.len() < usize::MAX,
            texts == spec_line_texts(lines@),
            spec_views(records@) == spec_file_records(texts.take(i as int)),
            spec_error_views(errors@) == spec_file_errors(texts.take(i as int)),
        decreases lines@.len() - i,
    {
        let ghost prefix = texts.take(i + 1);
        assert(prefix.drop_last() =~= texts.take(i as int));
        assert(prefix.last() == lines@[i as int]@);
        match decode_daily_line(&lines[i]) {
            Ok(mut rs) => {
                let ghost old_records = records@;
                let ghost new_records = rs@;
                records.append(&mut rs);
                assert(spec_views(records@) =~= spec_views(old_records) + spec_views(new_records));
            },
            Err(e) => {
                let ghost old_errors = errors@;
                let le = LineError { line_no: i + 1, error: e };
                errors.push(le);
                assert(spec_error_views(errors@) =~= spec_error_views(old_errors).push(le@));
            },
        }
        i = i + 1;
    }
    assert(texts.take(i as int) =~= texts);
    DailyFileDecode { records, errors }
}

/// A malformed line is reported with its line number, and the records of the
/// file are exactly those of the file without that line: no record of another
/// line is lost.
pub proof fn lemma_malformed_line_isolated(lines: Seq<Seq<char>>, k: int)
    requires
        0 <= k < lines.len(),
        spec_decode_daily_line(lines[k]) is Err,
    ensures
        spec_file_records(lines) == spec_file_records(lines.remove(k)),
        spec_file_errors(lines).contains(
            LineErrorView { line_no: k + 1, error: spec_decode_daily_line(lines[k])->Err_0 },
        ),
    decreases lines.len(),
{
    let e = LineErrorView { line_no: k + 1, error: spec_decode_daily_line(lines[k])->Err_0 };
    if k == lines.len() - 1 {
        assert(lines.remove(k) =~= lines.drop_last());
        assert(spec_file_records(lines) =~= spec_file_records(lines.drop_last()));
        assert(spec_file_errors(lines).last() == e);
    } else {
        let p = lines.drop_last();
        lemma_malformed_line_isolated(p, k);
        assert(lines.remove(k).drop_last() =~= p.remove(k));
        assert(lines.remove(k).last() == lines.last());
        let prev = spec_file_errors(p);
        let i = choose|i: int| 0 <= i < prev.len() && prev[i] == e;
        match spec_decode_daily_line(lines.last()) {
            Ok(_) => {},
            Err(x) => {
                assert(prev.push(LineErrorView { line_no: lines.len() as int, error: x })[i] == e);
            },
        }
    }
}

/// The per-file results that arrived from workers, each tagged with its file's
/// position in discovery order: the positions are distinct and below `n`.
pub open spec fn spec_arrivals_wf<T>(arrivals: Seq<(usize, Vec<T>)>, n: int) -> bool {
    &&& forall|k: int| 0 <= k < arrivals.len() ==> (#[trigger] arrivals[k]).0 < n
    &&& forall|k1: int, k2: int|
        0 <= k1 < arrivals.len() && 0 <= k2 < arrivals.len() && k1 != k2 ==> (#[trigger] arrivals[k1]).0
            != (#[trigger] arrivals[k2]).0
}

/// The result that arrived for file position `j`, or nothing.
pub open spec fn spec_result_for<T>(arrivals: Seq<(usize, Vec<T>)>, j: int) -> Seq<T> {
    if exists|k: int| 0 <= k < arrivals.len() && (#[trigger] arrivals[k]).0 == j {
        arrivals[choose|k: int| 0 <= k < arrivals.len() && (#[trigger] arrivals[k]).0 == j].1@
    } else {
        Seq::empty()
    }
}

/// The results of file positions 0..n, concatenated in position order.
pub open spec fn spec_merge<T>(arrivals: Seq<(usize, Vec<T>)>, n: int) -> Seq<T>
    decreases n,
{
    if n <= 0 {
        Seq::empty()
    } else {
        spec_merge(arrivals, n - 1) + spec_result_for(arrivals, n - 1)
    }
}

/// Concatenates per-file results by file position, whatever order they
/// arrived in.
pub fn merge_in_file_order<T>(n: usize, arrivals: Vec<(usize, Vec<T>)>) -> (r: Vec<T>)
    requires
        spec_arrivals_wf(arrivals@, n as int),
    ensures
        r@ == spec_merge(arrivals@, n as int),
{
    let ghost orig = arrivals@;
    // slot `n - 1 - j` holds the result of file position `j`
    let mut slots: Vec<Vec<T>> = Vec::new();
    while slots.len() < n
        invariant
            slots@.len() <= n,
            forall|p: int| 0 <= p < slots@.len() ==> (#[trigger] slots@[p])@ == Seq::<T>::empty(),
        decreases n - slots@.len(),
    {
        slots.push(Vec::new());
    }
    let mut arrivals = arrivals;
    while arrivals.len() > 0
        invariant
            slots@.len() == n,
            spec_arrivals_wf(orig, n as int),
            arrivals@ == orig.take(arrivals@.len() as int),
            arrivals@.len() <= orig.len(),
            forall|p: int| 0 <= p < n ==> (#[trigger] slots@[p])@ == (if exists|k: int|
                arrivals@.len() <= k < orig.len() && (#[trigger] orig[k]).0 == n - 1 - p {
                spec_result_for(orig, n - 1 - p)
            } else {
                Seq::<T>::empty()
            }),
        decreases arrivals@.len(),
    {
        let ghost m = arrivals@.len() - 1;
        let (j, v) = arrivals.pop().unwrap();
        assert(orig[m] == (j, v));
        assert(arrivals@ =~= orig.take(m));
        proof {
            assert(exists|k: int| 0 <= k < orig.len() && (#[trigger] orig[k]).0 == j);
            let c = choose|k: int| 0 <= k < orig.len() && (#[trigger] orig[k]).0 == j;
            assert(c == m);
        }
        let pos = n - 1 - j;
        slots.set(pos, v);
        assert forall|p: int| 0 <= p < n implies (#[trigger] slots@[p])@ == (if exists|k: int|
            m <= k < orig.len() && (#[trigger] orig[k]).0 == n - 1 - p {
            spec_result_for(orig, n - 1 - p)
        } else {
            Seq::<T>::empty()
        }) by {
            if p != pos {
                if exists|k: int| m <= k < orig.len() && (#[trigger] orig[k]).0 == n - 1 - p {
                    let k = choose|k: int| m <= k < orig.len() && (#[trigger] orig[k]).0 == n - 1 - p;
                    assert(k != m);
                }
            }
        }
    }
    let mut out: Vec<T> = Vec::new();
    let mut j: usize = 0;
    assert(out@ =~= spec_merge(orig, 0));
    while slots.len() > 0
        invariant
            j + slots@.len() == n,
            out@ == spec_merge(orig, j as int),
            forall|p: int| 0 <= p < slots@.len() ==> (#[trigger] slots@[p])@ == spec_result_for(orig, n - 1 - p),
        decreases slots@.len(),
    {
        let mut block = slots.pop().unwrap();
        assert(block@ == spec_result_for(orig, j as int));
        out.append(&mut block);
        j = j + 1;
    }
    out
}

proof fn lemma_result_for_reordered<T>(a1: Seq<(usize, Vec<T>)>, a2: Seq<(usize, Vec<T>)>, n: int, j: int)
    requires
        spec_arrivals_wf(a1, n),
        spec_arrivals_wf(a2, n),
        a1.to_multiset() == a2.to_multiset(),
    ensures
        spec_result_for(a1, j) == spec_result_for(a2, j),
{
    broadcast use vstd::seq_lib::to_multiset_contains;

    if exists|k: int| 0 <= k < a1.len() && (#[trigger] a1[k]).0 == j {
        let k1 = choose|k: int| 0 <= k < a1.len() && (#[trigger] a1[k]).0 == j;
        assert(a1.to_multiset().count(a1[k1]) > 0);
        assert(a2.contains(a1[k1]));
        let k2 = choose|k: int| 0 <= k < a2.len() && a2[k] == a1[k1];
        assert(a2[k2].0 == j);
        let c2 = choose|k: int| 0 <= k < a2.len() && (#[trigger] a2[k]).0 == j;
        assert(c2 == k2);
    } else if exists|k: int| 0 <= k < a2.len() && (#[trigger] a2[k]).0 == j {
        let k2 = choose|k: int| 0 <= k < a2.len() && (#[trigger] a2[k]).0 == j;
        assert(a2.to_multiset().count(a2[k2]) > 0);
        assert(a1.contains(a2[k2]));
        let k1 = choose|k: int| 0 <= k < a1.len() && a1[k] == a2[k2];
        assert(a1[k1].0 == j);
    }
}

/// The merged sequence depends only on which result belongs to which file
/// position: any other completion order of the same per-file results merges
/// to the same sequence.
pub proof fn lemma_merge_ignores_completion_order<T>(a1: Seq<(usize, Vec<T>)>, a2: Seq<(usize, Vec<T>)>, n: int)
    requires
        spec_arrivals_wf(a1, n),
        spec_arrivals_wf(a2, n),
        a1.to_multiset() == a2.to_multiset(),
    ensures
        spec_merge(a1, n) == spec_merge(a2, n),
{
    lemma_merge_prefix_reordered(a1, a2, n, n);
}

proof fn lemma_merge_prefix_reordered<T>(a1: Seq<(usize, Vec<T>)>, a2: Seq<(usize, Vec<T>)>, n: int, m: int)
    requires
        spec_arrivals_wf(a1, n),
        spec_arrivals_wf(a2, n),
        a1.to_multiset() == a2.to_multiset(),
    ensures
        spec_merge(a1, m) == spec_merge(a2, m),
    decreases m,
{
    if m > 0 {
        lemma_merge_prefix_reordered(a1, a2, n, m - 1);
        lemma_result_for_reordered(a1, a2, n, m - 1);
    }
}

} // verus!
