//! The durable output of an extraction: for each column key, the ordered
//! values appended to it, in first-use order of the keys.

use vstd::prelude::*;

use crate::text::str_eq;

verus! {

/// One output value at the specification level.
pub enum DataModel {
    /// A decimal number, as its source text.
    Value(Seq<char>),
    /// An absolute instant, rendered with an explicit UTC marker.
    Timestamp(Seq<char>),
}

/// One output value: a point's decimal value or its absolute timestamp.
#[derive(Debug, Clone, PartialEq, Eq)]
pub enum Data {
    /// A decimal number, as its source text.
    Value(String),
    /// An absolute instant, rendered with an explicit UTC marker.
    Timestamp(String),
}

impl View for Data {
    type V = DataModel;

    open spec fn view(&self) -> DataModel {
        match self {
            Data::Value(s) => DataModel::Value(s@),
            Data::Timestamp(s) => DataModel::Timestamp(s@),
        }
    }
}

/// The mapping from column key to column values, as an ordered sequence of
/// distinct keys with their value columns.
pub type RowsModel = Seq<(Seq<char>, Seq<DataModel>)>;

/// The column stored under `key`, if any: the first entry with that key.
pub open spec fn rows_get(rows: RowsModel, key: Seq<char>) -> Option<Seq<DataModel>>
    decreases rows.len(),
{
    if rows.len() == 0 {
        None
    } else if rows[0].0 == key {
        Some(rows[0].1)
    } else {
        rows_get(rows.skip(1), key)
    }
}

/// `rows` with `d` appended to the column under `key`, the column being
/// created at the end when the key is new.
pub open spec fn rows_push(rows: RowsModel, key: Seq<char>, d: DataModel) -> RowsModel
    decreases rows.len(),
{
    if rows.len() == 0 {
        seq![(key, seq![d])]
    } else if rows[0].0 == key {
        seq![(rows[0].0, rows[0].1.push(d))] + rows.skip(1)
    } else {
        seq![rows[0]] + rows_push(rows.skip(1), key, d)
    }
}

/// Appending under a key makes that key's column longer by exactly the
/// appended value.
pub proof fn lemma_rows_push_get_same(rows: RowsModel, key: Seq<char>, d: DataModel)
    ensures
        rows_get(rows_push(rows, key, d), key) == match rows_get(rows, key) {
            Some(items) => Some(items.push(d)),
            None => Some(seq![d]),
        },
    decreases rows.len(),
{
    if rows.len() == 0 {
        let r = rows_push(rows, key, d);
        assert(r[0].0 == key);
    } else if rows[0].0 == key {
        let r = rows_push(rows, key, d);
        assert(r[0].0 == key);
        assert(r[0].1 == rows[0].1.push(d));
    } else {
        lemma_rows_push_get_same(rows.skip(1), key, d);
        let r = rows_push(rows, key, d);
        assert(r[0] == rows[0]);
        assert(r.skip(1) =~= rows_push(rows.skip(1), key, d));
    }
}

/// Appending under one key leaves every other column unchanged.
pub proof fn lemma_rows_push_get_other(
    rows: RowsModel,
    key: Seq<char>,
    d: DataModel,
    other: Seq<char>,
)
    requires
        other != key,
    ensures
        rows_get(rows_push(rows, key, d), other) == rows_get(rows, other),
    decreases rows.len(),
{
    if rows.len() == 0 {
        let r = rows_push(rows, key, d);
        assert(r[0].0 == key);
        assert(r.skip(1) =~= Seq::<(Seq<char>, Seq<DataModel>)>::empty());
        assert(rows_get(r.skip(1), other) is None);
    } else if rows[0].0 == key {
        let r = rows_push(rows, key, d);
        assert(r[0].0 == key);
        assert(r.skip(1) =~= rows.skip(1));
        assert(rows_get(r, other) == rows_get(r.skip(1), other));
    } else {
        lemma_rows_push_get_other(rows.skip(1), key, d, other);
        let r = rows_push(rows, key, d);
        assert(r[0] == rows[0]);
        assert(r.skip(1) =~= rows_push(rows.skip(1), key, d));
    }
}

/// One column of the output: its key and its values, in append order.
#[derive(Debug, Clone, PartialEq, Eq)]
pub struct RowEntry {
    pub key: String,
    pub items: Vec<Data>,
}

impl View for RowEntry {
    type V = (Seq<char>, Seq<DataModel>);

    open spec fn view(&self) -> (Seq<char>, Seq<DataModel>) {
        (self.key@, self.items@.map_values(|d: Data| d@))
    }
}

/// The output of an extraction: every column keyed by resolution code and
/// kind, columns in first-use order.
#[derive(Debug, Clone, PartialEq, Eq)]
pub struct Rows {
    pub entries: Vec<RowEntry>,
}

impl View for Rows {
    type V = RowsModel;

    open spec fn view(&self) -> RowsModel {
        self.entries@.map_values(|e: RowEntry| e@)
    }
}

impl Rows {
    /// An output with no columns.
    pub fn new() -> (r: Rows)
        ensures
            r@ == Seq::<(Seq<char>, Seq<DataModel>)>::empty(),
    {
        let r = Rows { entries: Vec::new() };
        proof {
            assert(r@ =~= Seq::<(Seq<char>, Seq<DataModel>)>::empty());
        }
        r
    }

    /// Appends `d` to the column under `key`, creating the column at the
    /// end when the key is new.
    pub fn push(&mut self, key: String, d: Data)
        ensures
            final(self)@ == rows_push(old(self)@, key@, d@),
    {
        let ghost gkey = key@;
        let ghost gd = d@;
        let n = self.entries.len();
        let mut i: usize = 0;
        while i < n
            invariant
                n == self.entries.len(),
                i <= n,
                *self == *old(self),
                gkey == key@,
                gd == d@,
                forall|j: int| 0 <= j < i ==> #[trigger] self.entries@[j].key@ != key@,
            decreases n - i,
        {
            if str_eq(self.entries[i].key.as_str(), key.as_str()) {
                let ghost entries0 = self.entries@;
                proof {
                    assert(entries0 == old(self).entries@);
                    assert(old(self)@[i as int] == entries0[i as int]@);
                    assert(entries0[i as int].key@ == gkey);
                    assert(old(self)@[i as int].0 == gkey);
                }
                let mut entry = self.entries.remove(i);
                let ghost e0 = entry@;
                let ghost items0 = entry.items@;
                proof {
                    assert(e0.1 == items0.map_values(|x: Data| x@));
                }
                entry.items.push(d);
                proof {
                    assert(entry.items@ == items0.push(d));
                    assert(entry@.0 == e0.0);
                    assert(entry@.1 == entry.items@.map_values(|x: Data| x@));
                    assert(entry@.1 =~= e0.1.push(gd));
                }
                let ghost e1 = entry@;
                self.entries.insert(i, entry);
                proof {
                    lemma_rows_push_at(old(self)@, gkey, gd, i as int);
                    assert(e0 == old(self)@[i as int]);
                    assert(e1 == (gkey, old(self)@[i as int].1.push(gd)));
                    assert(self@ =~= old(self)@.update(
                        i as int,
                        (gkey, old(self)@[i as int].1.push(gd)),
                    ));
                }
                return ;
            }
            i += 1;
        }
        let entry = RowEntry { key, items: vec![d] };
        proof {
            assert(entry@.0 == gkey);
            assert(entry@.1 =~= seq![gd]);
        }
        let ghost gentry = entry@;
        self.entries.push(entry);
        proof {
            lemma_rows_push_absent(old(self)@, gkey, gd);
            assert(self@ =~= old(self)@.push(gentry));
        }
    }

    /// The column stored under `key`, if any.
    pub fn get(&self, key: &str) -> (r: Option<&Vec<Data>>)
        ensures
            r is Some <==> rows_get(self@, key@) is Some,
            r matches Some(items) ==> rows_get(self@, key@) == Some(
                items@.map_values(|d: Data| d@),
            ),
    {
        let n = self.entries.len();
        let mut i: usize = 0;
        while i < n
            invariant
                n == self.entries.len(),
                i <= n,
                forall|j: int| 0 <= j < i ==> #[trigger] self.entries@[j].key@ != key@,
            decreases n - i,
        {
            if str_eq(self.entries[i].key.as_str(), key) {
                proof {
                    lemma_rows_get_at(self@, key@, i as int);
                }
                return Some(&self.entries[i].items);
            }
            i += 1;
        }
        proof {
            lemma_rows_get_absent(self@, key@);
        }
        None
    }

    /// Whether any value was stored under `key`.
    pub fn contains_key(&self, key: &str) -> (r: bool)
        ensures
            r == (rows_get(self@, key@) is Some),
    {
        self.get(key).is_some()
    }
}

/// Where the first entry holding `key` stands at `i`, appending under `key`
/// updates that entry in place.
proof fn lemma_rows_push_at(rows: RowsModel, key: Seq<char>, d: DataModel, i: int)
    requires
        0 <= i < rows.len(),
        rows[i].0 == key,
        forall|j: int| 0 <= j < i ==> #[trigger] rows[j].0 != key,
    ensures
        rows_push(rows, key, d) == rows.update(i, (key, rows[i].1.push(d))),
    decreases rows.len(),
{
    if i == 0 {
        assert(rows_push(rows, key, d) =~= rows.update(0, (key, rows[0].1.push(d))));
    } else {
        assert(forall|j: int| 0 <= j < i - 1 ==> #[trigger] rows.skip(1)[j].0 != key);
        lemma_rows_push_at(rows.skip(1), key, d, i - 1);
        assert(rows_push(rows, key, d) =~= rows.update(i, (key, rows[i].1.push(d))));
    }
}

/// Where no entry holds `key`, appending under `key` adds a new entry at
/// the end.
proof fn lemma_rows_push_absent(rows: RowsModel, key: Seq<char>, d: DataModel)
    requires
        forall|j: int| 0 <= j < rows.len() ==> #[trigger] rows[j].0 != key,
    ensures
        rows_push(rows, key, d) == rows.push((key, seq![d])),
    decreases rows.len(),
{
    if rows.len() == 0 {
        assert(rows_push(rows, key, d) =~= rows.push((key, seq![d])));
    } else {
        assert(forall|j: int| 0 <= j < rows.len() - 1 ==> #[trigger] rows.skip(1)[j].0 != key);
        lemma_rows_push_absent(rows.skip(1), key, d);
        assert(rows_push(rows, key, d) =~= rows.push((key, seq![d])));
    }
}

/// Where the first entry holding `key` stands at `i`, that entry's column
/// is the one `key` finds.
proof fn lemma_rows_get_at(rows: RowsModel, key: Seq<char>, i: int)
    requires
        0 <= i < rows.len(),
        rows[i].0 == key,
        forall|j: int| 0 <= j < i ==> #[trigger] rows[j].0 != key,
    ensures
        rows_get(rows, key) == Some(rows[i].1),
    decreases rows.len(),
{
    if i > 0 {
        assert(forall|j: int| 0 <= j < i - 1 ==> #[trigger] rows.skip(1)[j].0 != key);
        lemma_rows_get_at(rows.skip(1), key, i - 1);
    }
}

/// Where no entry holds `key`, `key` finds nothing.
proof fn lemma_rows_get_absent(rows: RowsModel, key: Seq<char>)
    requires
        forall|j: int| 0 <= j < rows.len() ==> #[trigger] rows[j].0 != key,
    ensures
        rows_get(rows, key) is None,
    decreases rows.len(),
{
    if rows.len() > 0 {
        assert(forall|j: int| 0 <= j < rows.len() - 1 ==> #[trigger] rows.skip(1)[j].0 != key);
        lemma_rows_get_absent(rows.skip(1), key);
    }
}

} // verus!
