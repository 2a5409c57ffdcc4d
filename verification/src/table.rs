use vstd::pervasive::unreached;
use vstd::prelude::*;

use crate::value::{lemma_record_rep, lemma_rep_variant, ValRep, Value};

verus! {

/// The pairs of a record representation.
pub open spec fn pairs_of(r: ValRep) -> Seq<(Seq<char>, ValRep)> {
    r->Record_0
}

/// The column names of a record's pairs, in record order.
pub open spec fn cols_of(pairs: Seq<(Seq<char>, ValRep)>) -> Seq<Seq<char>> {
    pairs.map_values(|p: (Seq<char>, ValRep)| p.0)
}

/// Whether every element of a sequence is a keyed record.
pub open spec fn all_records(items: Seq<ValRep>) -> bool {
    forall|i: int| 0 <= i < items.len() ==> (#[trigger] items[i]) is Record
}

/// A header extended by one column name: appended if new, unchanged if seen.
pub open spec fn insert_col(h: Seq<Seq<char>>, c: Seq<char>) -> Seq<Seq<char>> {
    if h.contains(c) {
        h
    } else {
        h.push(c)
    }
}

/// A header extended by a record's column names, left to right.
pub open spec fn add_cols(h: Seq<Seq<char>>, cols: Seq<Seq<char>>) -> Seq<Seq<char>>
    decreases cols.len(),
{
    if cols.len() == 0 {
        h
    } else {
        insert_col(add_cols(h, cols.drop_last()), cols.last())
    }
}

/// The header synthesized from a sequence of records: every column name, in
/// the order each is first seen scanning the records and their pairs in order.
pub open spec fn header_rep(items: Seq<ValRep>) -> Seq<Seq<char>>
    decreases items.len(),
{
    if items.len() == 0 {
        Seq::empty()
    } else {
        add_cols(header_rep(items.drop_last()), cols_of(pairs_of(items.last())))
    }
}

/// The value a record puts under a column name: the value of the last pair
/// bearing that name, or the absent value if no pair does.
pub open spec fn col_value(pairs: Seq<(Seq<char>, ValRep)>, name: Seq<char>) -> ValRep
    decreases pairs.len(),
{
    if pairs.len() == 0 {
        ValRep::Nothing
    } else if pairs.last().0 == name {
        pairs.last().1
    } else {
        col_value(pairs.drop_last(), name)
    }
}

/// The row synthesized for one record against a header: one cell per column.
pub open spec fn row_rep(header: Seq<Seq<char>>, pairs: Seq<(Seq<char>, ValRep)>) -> Seq<ValRep> {
    Seq::new(header.len(), |j: int| col_value(pairs, header[j]))
}

/// The mathematical shape of a table: a header and a row per record.
#[verifier::ext_equal]
pub struct TableRep {
    pub header: Seq<Seq<char>>,
    pub rows: Seq<Seq<ValRep>>,
}

/// The table synthesized from a sequence of records.
pub open spec fn table_rep(items: Seq<ValRep>) -> TableRep {
    TableRep {
        header: header_rep(items),
        rows: Seq::new(items.len(), |i: int| row_rep(header_rep(items), pairs_of(items[i]))),
    }
}

/// No two elements of the sequence are equal.
pub open spec fn distinct(h: Seq<Seq<char>>) -> bool {
    forall|i: int, j: int| 0 <= i < j < h.len() ==> h[i] != h[j]
}

/// The table invariant: no column name repeats, and the table is rectangular,
/// every row exactly as long as the header.
pub open spec fn table_wf(t: TableRep) -> bool {
    &&& distinct(t.header)
    &&& forall|i: int| 0 <= i < t.rows.len() ==> (#[trigger] t.rows[i]).len() == t.header.len()
}

/// Extending a header never removes a name and never adds one already there.
pub proof fn lemma_add_cols_grows(h: Seq<Seq<char>>, cols: Seq<Seq<char>>)
    ensures
        forall|c: Seq<char>| h.contains(c) ==> add_cols(h, cols).contains(c),
        forall|c: Seq<char>|
            add_cols(h, cols).contains(c) ==> h.contains(c) || cols.contains(c),
    decreases cols.len(),
{
    if cols.len() != 0 {
        lemma_add_cols_grows(h, cols.drop_last());
        let h1 = add_cols(h, cols.drop_last());
        assert forall|c: Seq<char>| h.contains(c) implies insert_col(h1, cols.last()).contains(c) by {
            if !h1.contains(c) {
            } else {
                assert(insert_col(h1, cols.last()) =~= if h1.contains(cols.last()) {
                    h1
                } else {
                    h1.push(cols.last())
                });
                let i = choose|i: int| 0 <= i < h1.len() && h1[i] == c;
                assert(insert_col(h1, cols.last())[i] == c);
            }
        }
        assert forall|c: Seq<char>|
            insert_col(h1, cols.last()).contains(c) implies h.contains(c) || cols.contains(c) by {
            if h1.contains(c) {
                assert(h.contains(c) || cols.drop_last().contains(c));
                if cols.drop_last().contains(c) {
                    let i = choose|i: int| 0 <= i < cols.drop_last().len() && cols.drop_last()[i] == c;
                    assert(cols[i] == c);
                }
            } else {
                let i = choose|i: int|
                    0 <= i < insert_col(h1, cols.last()).len() && insert_col(h1, cols.last())[i] == c;
                assert(c == cols.last());
                assert(cols[cols.len() - 1] == c);
            }
        }
    }
}

/// Extending a header keeps its names distinct.
pub proof fn lemma_add_cols_distinct(h: Seq<Seq<char>>, cols: Seq<Seq<char>>)
    requires
        distinct(h),
    ensures
        distinct(add_cols(h, cols)),
    decreases cols.len(),
{
    if cols.len() != 0 {
        lemma_add_cols_distinct(h, cols.drop_last());
        let h1 = add_cols(h, cols.drop_last());
        let c = cols.last();
        if !h1.contains(c) {
            assert forall|i: int, j: int|
                0 <= i < j < h1.push(c).len() implies h1.push(c)[i] != h1.push(c)[j] by {
                if j < h1.len() {
                } else {
                    assert(h1.push(c)[i] == h1[i]);
                    assert(!h1.contains(c));
                }
            }
        }
    }
}

/// A synthesized header has no duplicate names.
pub proof fn lemma_header_rep_distinct(items: Seq<ValRep>)
    ensures
        distinct(header_rep(items)),
    decreases items.len(),
{
    if items.len() != 0 {
        lemma_header_rep_distinct(items.drop_last());
        lemma_add_cols_distinct(header_rep(items.drop_last()), cols_of(pairs_of(items.last())));
    }
}

/// The table synthesized from records always satisfies the table invariant.
pub proof fn lemma_table_rep_wf(items: Seq<ValRep>)
    ensures
        table_wf(table_rep(items)),
{
    lemma_header_rep_distinct(items);
}

/// A record that holds no pair under a column name fills that column's cell
/// with the absent value.
pub proof fn lemma_missing_column_is_nothing(pairs: Seq<(Seq<char>, ValRep)>, name: Seq<char>)
    requires
        !cols_of(pairs).contains(name),
    ensures
        col_value(pairs, name) == ValRep::Nothing,
    decreases pairs.len(),
{
    if pairs.len() != 0 {
        assert(cols_of(pairs)[pairs.len() - 1] == pairs.last().0);
        assert(pairs.last().0 != name);
        assert(!cols_of(pairs.drop_last()).contains(name)) by {
            if cols_of(pairs.drop_last()).contains(name) {
                let i = choose|i: int|
                    0 <= i < cols_of(pairs.drop_last()).len() && cols_of(pairs.drop_last())[i]
                        == name;
                assert(cols_of(pairs)[i] == name);
            }
        }
        lemma_missing_column_is_nothing(pairs.drop_last(), name);
    }
}

/// Every column name of every record, concatenated in scan order: the order
/// in which the header builder first meets each occurrence.
pub open spec fn all_cols(items: Seq<ValRep>) -> Seq<Seq<char>>
    decreases items.len(),
{
    if items.len() == 0 {
        Seq::empty()
    } else {
        all_cols(items.drop_last()) + cols_of(pairs_of(items.last()))
    }
}

/// The position of the first occurrence of a name in a sequence of names, or
/// the sequence's length if it never occurs.
pub open spec fn first_at(s: Seq<Seq<char>>, c: Seq<char>) -> int
    decreases s.len(),
{
    if s.len() == 0 {
        0
    } else if s.first() == c {
        0
    } else {
        1 + first_at(s.drop_first(), c)
    }
}

proof fn lemma_first_at_bounds(s: Seq<Seq<char>>, c: Seq<char>)
    ensures
        0 <= first_at(s, c) <= s.len(),
        (first_at(s, c) < s.len()) == s.contains(c),
        s.contains(c) ==> s[first_at(s, c)] == c,
    decreases s.len(),
{
    if s.len() != 0 {
        if s.first() == c {
            assert(s[0] == c);
        } else {
            lemma_first_at_bounds(s.drop_first(), c);
            assert(s.contains(c) == s.drop_first().contains(c)) by {
                if s.contains(c) {
                    let i = choose|i: int| 0 <= i < s.len() && s[i] == c;
                    assert(s.drop_first()[i - 1] == c);
                }
                if s.drop_first().contains(c) {
                    let i = choose|i: int|
                        0 <= i < s.drop_first().len() && s.drop_first()[i] == c;
                    assert(s[i + 1] == c);
                }
            }
            if s.contains(c) {
                assert(s[first_at(s, c)] == s.drop_first()[first_at(s.drop_first(), c)]);
            }
        }
    }
}

proof fn lemma_first_at_append(s: Seq<Seq<char>>, t: Seq<Seq<char>>, c: Seq<char>)
    ensures
        first_at(s + t, c) == (if s.contains(c) {
            first_at(s, c)
        } else {
            s.len() + first_at(t, c)
        }),
    decreases s.len(),
{
    lemma_first_at_bounds(s, c);
    if s.len() == 0 {
        assert(s + t =~= t);
    } else {
        assert((s + t).first() == s.first());
        assert((s + t).drop_first() =~= s.drop_first() + t);
        lemma_first_at_append(s.drop_first(), t, c);
        assert(s.contains(c) == (s.first() == c || s.drop_first().contains(c))) by {
            if s.contains(c) && s.first() != c {
                let i = choose|i: int| 0 <= i < s.len() && s[i] == c;
                assert(s.drop_first()[i - 1] == c);
            }
            if s.drop_first().contains(c) {
                let i = choose|i: int| 0 <= i < s.drop_first().len() && s.drop_first()[i] == c;
                assert(s[i + 1] == c);
            }
            if s.first() == c {
                assert(s[0] == c);
            }
        }
    }
}

proof fn lemma_add_cols_flatten(h: Seq<Seq<char>>, a: Seq<Seq<char>>, b: Seq<Seq<char>>)
    ensures
        add_cols(add_cols(h, a), b) == add_cols(h, a + b),
    decreases b.len(),
{
    if b.len() == 0 {
        assert(a + b =~= a);
    } else {
        assert((a + b).drop_last() =~= a + b.drop_last());
        assert((a + b).last() == b.last());
        lemma_add_cols_flatten(h, a, b.drop_last());
    }
}

proof fn lemma_header_rep_flat(items: Seq<ValRep>)
    ensures
        header_rep(items) == add_cols(Seq::empty(), all_cols(items)),
    decreases items.len(),
{
    if items.len() != 0 {
        lemma_header_rep_flat(items.drop_last());
        lemma_add_cols_flatten(
            Seq::empty(),
            all_cols(items.drop_last()),
            cols_of(pairs_of(items.last())),
        );
    }
}

proof fn lemma_first_seen_flat(s: Seq<Seq<char>>)
    ensures
        distinct(add_cols(Seq::empty(), s)),
        forall|c: Seq<char>| #[trigger] add_cols(Seq::empty(), s).contains(c) == s.contains(c),
        forall|i: int, j: int|
            0 <= i < j < add_cols(Seq::empty(), s).len() ==> first_at(
                s,
                add_cols(Seq::empty(), s)[i],
            ) < first_at(s, add_cols(Seq::empty(), s)[j]),
    decreases s.len(),
{
    let g = add_cols(Seq::empty(), s);
    lemma_add_cols_distinct(Seq::empty(), s);
    lemma_add_cols_grows(Seq::empty(), s);
    assert forall|c: Seq<char>| #[trigger] g.contains(c) == s.contains(c) by {
        if s.contains(c) {
            let i = choose|i: int| 0 <= i < s.len() && s[i] == c;
            assert(s.take(i + 1).drop_last() =~= s.take(i));
            lemma_add_cols_flatten(Seq::empty(), s.take(i + 1), s.skip(i + 1));
            assert(s.take(i + 1) + s.skip(i + 1) =~= s);
            lemma_add_cols_grows(Seq::empty(), s.take(i + 1));
            assert(insert_col(add_cols(Seq::empty(), s.take(i)), c).contains(c)) by {
                let h1 = add_cols(Seq::empty(), s.take(i));
                if !h1.contains(c) {
                    assert(h1.push(c)[h1.len() as int] == c);
                }
            }
            assert(s.take(i + 1).last() == c);
            assert(add_cols(Seq::empty(), s.take(i + 1)).contains(c));
            lemma_add_cols_grows(add_cols(Seq::empty(), s.take(i + 1)), s.skip(i + 1));
            assert(add_cols(add_cols(Seq::empty(), s.take(i + 1)), s.skip(i + 1)).contains(c));
        }
    }
    if s.len() != 0 {
        let s0 = s.drop_last();
        let c = s.last();
        lemma_first_seen_flat(s0);
        let g0 = add_cols(Seq::empty(), s0);
        assert(g == insert_col(g0, c));
        assert(s0 + seq![c] =~= s);
        assert forall|x: Seq<char>| s0.contains(x) implies first_at(s, x) == first_at(s0, x) by {
            lemma_first_at_append(s0, seq![c], x);
        }
        assert forall|i: int, j: int| 0 <= i < j < g.len() implies first_at(s, g[i]) < first_at(
            s,
            g[j],
        ) by {
            lemma_first_at_bounds(s0, g[i]);
            lemma_first_at_bounds(s0, g[j]);
            if j < g0.len() {
                assert(g[i] == g0[i] && g[j] == g0[j]);
                assert(g0.contains(g0[i]) && g0.contains(g0[j]));
                assert(s0.contains(g0[i]) && s0.contains(g0[j]));
            } else {
                assert(!g0.contains(c));
                assert(g[j] == c);
                assert(g[i] == g0[i]);
                assert(g0.contains(g0[i]));
                assert(s0.contains(g0[i]));
                assert(!s0.contains(c));
                lemma_first_at_append(s0, seq![c], c);
                assert(first_at(seq![c], c) == 0) by {
                    assert(seq![c].first() == c);
                }
                assert(first_at(s, c) == s0.len());
                assert(first_at(s, g[i]) == first_at(s0, g0[i]));
            }
        }
    }
}

/// The header lists exactly the column names that occur in the records, each
/// exactly once, ordered by the position of each name's first occurrence in
/// the scan of all records' columns.
pub proof fn lemma_header_first_seen(items: Seq<ValRep>)
    ensures
        distinct(header_rep(items)),
        forall|c: Seq<char>|
            #[trigger] header_rep(items).contains(c) == all_cols(items).contains(c),
        forall|i: int, j: int|
            0 <= i < j < header_rep(items).len() ==> first_at(
                all_cols(items),
                header_rep(items)[i],
            ) < first_at(all_cols(items), header_rep(items)[j]),
{
    lemma_header_rep_flat(items);
    lemma_first_seen_flat(all_cols(items));
}

proof fn lemma_add_cols_take_step(h: Seq<Seq<char>>, cols: Seq<Seq<char>>, k: int)
    requires
        0 <= k < cols.len(),
    ensures
        add_cols(h, cols.take(k + 1)) == insert_col(add_cols(h, cols.take(k)), cols[k]),
{
    assert(cols.take(k + 1).drop_last() =~= cols.take(k));
}

proof fn lemma_header_rep_take_step(items: Seq<ValRep>, r: int)
    requires
        0 <= r < items.len(),
    ensures
        header_rep(items.take(r + 1)) == add_cols(
            header_rep(items.take(r)),
            cols_of(pairs_of(items[r])),
        ),
{
    assert(items.take(r + 1).drop_last() =~= items.take(r));
}

proof fn lemma_col_value_take_step(pairs: Seq<(Seq<char>, ValRep)>, k: int, name: Seq<char>)
    requires
        0 <= k < pairs.len(),
    ensures
        col_value(pairs.take(k + 1), name) == (if pairs[k].0 == name {
            pairs[k].1
        } else {
            col_value(pairs.take(k), name)
        }),
{
    assert(pairs.take(k + 1).drop_last() =~= pairs.take(k));
}

/// The first position holding the given name in the header, if any.
fn find_col(header: &Vec<String>, name: &String) -> (r: Option<usize>)
    ensures
        match r {
            Some(ix) => ix < header@.len() && header.deep_view()[ix as int] == name@,
            None => !header.deep_view().contains(name@),
        },
{
    let mut ix: usize = 0;
    while ix < header.len()
        invariant
            ix <= header@.len(),
            forall|q: int| 0 <= q < ix ==> header.deep_view()[q] != name@,
        decreases header@.len() - ix,
    {
        if header[ix] == *name {
            return Some(ix);
        }
        ix += 1;
    }
    proof {
        if header.deep_view().contains(name@) {
            let q = choose|q: int|
                0 <= q < header.deep_view().len() && header.deep_view()[q] == name@;
            assert(header.deep_view()[q] != name@);
        }
    }
    None
}

/// A table ready for display: a header of column names and one row per source
/// record. The synthesizer is the only way to construct one, so every table
/// in circulation satisfies [`table_wf`].
#[derive(Debug, PartialEq, Eq)]
pub struct Table {
    header: Vec<String>,
    rows: Vec<Vec<Value>>,
}

impl Table {
    /// The representation of this table.
    pub closed spec fn rep(&self) -> TableRep {
        TableRep { header: self.header.deep_view(), rows: self.rows.deep_view() }
    }

    /// The column names, in first-seen order.
    pub fn header(&self) -> (h: &Vec<String>)
        ensures
            h.deep_view() == self.rep().header,
    {
        &self.header
    }

    /// The rows, one per source record, each as long as the header.
    pub fn rows(&self) -> (r: &Vec<Vec<Value>>)
        ensures
            r.deep_view() == self.rep().rows,
    {
        &self.rows
    }

    /// Build a table from a sequence of keyed records: the header is the
    /// first-seen union of the records' column names, and each record becomes
    /// one row, with the absent value in every column the record lacks.
    pub fn synthesize(records: Vec<Value>) -> (t: Table)
        requires
            all_records(records.deep_view()),
        ensures
            t.rep() == table_rep(records.deep_view()),
            table_wf(t.rep()),
    {
        let ghost orig: Seq<ValRep> = records.deep_view();
        let n = records.len();

        // First pass: the header, by appending each column name not yet seen.
        let mut header: Vec<String> = Vec::new();
        let mut r: usize = 0;
        while r < n
            invariant
                n == records@.len(),
                orig == records.deep_view(),
                all_records(orig),
                r <= n,
                header.deep_view() == header_rep(orig.take(r as int)),
            decreases n - r,
        {
            let pairs: &Vec<(String, Value)> = match &records[r] {
                Value::Record(p) => p,
                _ => {
                    proof {
                        assert(orig[r as int] == records[r as int].deep_view());
                        assert(orig[r as int] is Record);
                        lemma_rep_variant(records[r as int]);
                        assert(false);
                    }
                    unreached()
                },
            };
            proof {
                lemma_record_rep(*pairs);
            }
            let ghost pdv = pairs.deep_view();
            let ghost h0 = header_rep(orig.take(r as int));
            let plen = pairs.len();
            let mut k: usize = 0;
            while k < plen
                invariant
                    plen == pairs@.len(),
                    pdv == pairs.deep_view(),
                    k <= plen,
                    header.deep_view() == add_cols(h0, cols_of(pdv).take(k as int)),
                decreases plen - k,
            {
                let name: &String = &pairs[k].0;
                proof {
                    lemma_add_cols_take_step(h0, cols_of(pdv), k as int);
                    assert(cols_of(pdv)[k as int] == name@);
                }
                let ghost before = header.deep_view();
                match find_col(&header, name) {
                    Some(_) => {
                        proof {
                            assert(before.contains(name@));
                        }
                    },
                    None => {
                        header.push(name.clone());
                        proof {
                            assert(header.deep_view() =~= before.push(name@));
                        }
                    },
                }
                k += 1;
            }
            proof {
                assert(cols_of(pdv).take(plen as int) =~= cols_of(pdv));
                assert(pairs_of(orig[r as int]) == pdv);
                lemma_header_rep_take_step(orig, r as int);
            }
            r += 1;
        }
        proof {
            assert(orig.take(n as int) =~= orig);
            lemma_header_rep_distinct(orig);
        }
        let ghost hrep = header_rep(orig);
        let hlen = header.len();

        // Second pass: one row per record, pre-filled with the absent value,
        // then each pair's value placed under its column.
        let mut recs = records;
        let mut rows: Vec<Vec<Value>> = Vec::new();
        let mut idx: usize = 0;
        while idx < n
            invariant
                n == orig.len(),
                all_records(orig),
                idx <= n,
                recs.deep_view() == orig.subrange(idx as int, n as int),
                recs@.len() == n - idx,
                header.deep_view() == hrep,
                hlen == hrep.len(),
                distinct(hrep),
                rows@.len() == idx,
                forall|i: int|
                    0 <= i < idx ==> rows.deep_view()[i] == row_rep(
                        hrep,
                        pairs_of(orig[i]),
                    ),
            decreases n - idx,
        {
            let ghost recs_before = recs.deep_view();
            let ghost recs_seq = recs@;
            let rec = recs.remove(0);
            proof {
                assert(recs@ =~= recs_seq.subrange(1, recs_seq.len() as int));
                assert(rec.rep() == recs_before[0]);
                assert(rec.rep() == orig[idx as int]);
                assert forall|i2: int| 0 <= i2 < recs@.len() implies recs.deep_view()[i2]
                    == orig[idx as int + 1 + i2] by {
                    assert(recs@[i2] == recs_seq[i2 + 1]);
                    assert(recs.deep_view()[i2] == recs@[i2].deep_view());
                    assert(recs_before[i2 + 1] == recs_seq[i2 + 1].deep_view());
                    assert(recs_before[i2 + 1] == orig.subrange(idx as int, n as int)[i2 + 1]);
                }
                assert(recs.deep_view() =~= orig.subrange(idx as int + 1, n as int));
            }
            let pairs: Vec<(String, Value)> = match rec {
                Value::Record(p) => p,
                _ => {
                    proof {
                        lemma_rep_variant(rec);
                    }
                    unreached()
                },
            };
            proof {
                lemma_record_rep(pairs);
                assert(pairs_of(orig[idx as int]) == pairs.deep_view());
            }
            let ghost pdv = pairs.deep_view();

            let mut row: Vec<Value> = Vec::new();
            let mut j: usize = 0;
            while j < hlen
                invariant
                    j <= hlen,
                    row@.len() == j,
                    forall|q: int| 0 <= q < j ==> row.deep_view()[q] == ValRep::Nothing,
                decreases hlen - j,
            {
                let ghost row_before = row.deep_view();
                row.push(Value::Nothing);
                proof {
                    assert(row.deep_view() =~= row_before.push(ValRep::Nothing));
                }
                j += 1;
            }

            let mut pr = pairs;
            let plen = pr.len();
            let mut k: usize = 0;
            while k < plen
                invariant
                    plen == pdv.len(),
                    k <= plen,
                    pr.deep_view() == pdv.subrange(k as int, plen as int),
                    pr@.len() == plen - k,
                    header.deep_view() == hrep,
                    hlen == hrep.len(),
                    distinct(hrep),
                    row@.len() == hlen,
                    forall|q: int|
                        0 <= q < hlen ==> row.deep_view()[q] == col_value(
                            pdv.take(k as int),
                            hrep[q],
                        ),
                decreases plen - k,
            {
                let ghost pr_before = pr.deep_view();
                let ghost pr_seq = pr@;
                let (name, val) = pr.remove(0);
                proof {
                    assert(pr@ =~= pr_seq.subrange(1, pr_seq.len() as int));
                    assert(pr_before[0] == pdv[k as int]);
                    assert((name@, val.rep()) == pdv[k as int]);
                    assert forall|i2: int| 0 <= i2 < pr@.len() implies pr.deep_view()[i2]
                        == pdv[k as int + 1 + i2] by {
                        assert(pr@[i2] == pr_seq[i2 + 1]);
                        assert(pr.deep_view()[i2] == pr@[i2].deep_view());
                        assert(pr_before[i2 + 1] == pr_seq[i2 + 1].deep_view());
                        assert(pr_before[i2 + 1] == pdv.subrange(k as int, plen as int)[i2 + 1]);
                    }
                    assert(pr.deep_view() =~= pdv.subrange(k as int + 1, plen as int));
                }
                let ghost row_before = row.deep_view();
                match find_col(&header, &name) {
                    Some(ix) => {
                        row[ix] = val;
                        proof {
                            assert(row.deep_view() =~= row_before.update(
                                ix as int,
                                val.rep(),
                            ));
                            assert forall|q: int| 0 <= q < hlen implies row.deep_view()[q]
                                == col_value(pdv.take(k as int + 1), hrep[q]) by {
                                lemma_col_value_take_step(pdv, k as int, hrep[q]);
                                if q != ix {
                                    assert(hrep[q] != hrep[ix as int]);
                                }
                            }
                        }
                    },
                    None => {
                        proof {
                            assert forall|q: int| 0 <= q < hlen implies row.deep_view()[q]
                                == col_value(pdv.take(k as int + 1), hrep[q]) by {
                                lemma_col_value_take_step(pdv, k as int, hrep[q]);
                                if hrep[q] == name@ {
                                    assert(header.deep_view().contains(name@));
                                }
                            }
                        }
                    },
                }
                k += 1;
            }
            proof {
                assert(pdv.take(plen as int) =~= pdv);
                assert(row.deep_view() =~= row_rep(hrep, pdv));
            }
            let ghost rows_before = rows.deep_view();
            rows.push(row);
            proof {
                assert(rows.deep_view() =~= rows_before.push(row_rep(hrep, pdv)));
            }
            idx += 1;
        }

        let t = Table { header, rows };
        proof {
            assert(t.rep().rows =~= table_rep(orig).rows);
            assert(t.rep() =~= table_rep(orig));
            lemma_table_rep_wf(orig);
        }
        t
    }
}

} // verus!
