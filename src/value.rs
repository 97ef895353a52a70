use vstd::prelude::*;

verus! {

/// A generic, self-describing document value: what parsing arbitrary
/// JSON-shaped input yields. Numbers are kept as their exact decimal text.
/// A record's keys are meant to be distinct; conversion keeps them as given.
#[derive(Debug, PartialEq, Eq)]
pub enum DocValue {
    Null,
    Bool(bool),
    Number(String),
    Str(String),
    Sequence(Vec<DocValue>),
    Record(Vec<(String, DocValue)>),
}

/// A value tagged for the store's item protocol.
#[derive(Debug, PartialEq, Eq)]
pub enum WireValue {
    NullFlag(bool),
    Bool(bool),
    NumberText(String),
    StringText(String),
    ListOf(Vec<WireValue>),
    MapOf(Vec<(String, WireValue)>),
}

/// `w` is the wire form of `d`: the same shape, the same keys in the same
/// order, the same element order, the same text, with each leaf retagged.
pub open spec fn is_wire_of(w: WireValue, d: DocValue) -> bool
    decreases d,
{
    match d {
        DocValue::Null => w == WireValue::NullFlag(true),
        DocValue::Bool(b) => w == WireValue::Bool(b),
        DocValue::Number(n) => w is NumberText && w->NumberText_0@ == n@,
        DocValue::Str(s) => w is StringText && w->StringText_0@ == s@,
        DocValue::Sequence(ds) => w is ListOf && items_are_wire_of(w->ListOf_0@, ds@),
        DocValue::Record(ps) => w is MapOf && entries_are_wire_of(w->MapOf_0@, ps@),
    }
}

/// Element by element, `ws` is the wire form of `ds`, in the same order.
pub open spec fn items_are_wire_of(ws: Seq<WireValue>, ds: Seq<DocValue>) -> bool
    decreases ds,
{
    if ds.len() == 0 {
        ws.len() == 0
    } else {
        &&& ws.len() == ds.len()
        &&& is_wire_of(ws[ws.len() - 1], ds[ds.len() - 1])
        &&& items_are_wire_of(ws.subrange(0, ws.len() - 1), ds.subrange(0, ds.len() - 1))
    }
}

/// Entry by entry, `wps` holds the keys of `ps`, in the same order, each
/// with the wire form of its document value.
pub open spec fn entries_are_wire_of(
    wps: Seq<(String, WireValue)>,
    ps: Seq<(String, DocValue)>,
) -> bool
    decreases ps,
{
    if ps.len() == 0 {
        wps.len() == 0
    } else {
        &&& wps.len() == ps.len()
        &&& wps[wps.len() - 1].0@ == ps[ps.len() - 1].0@
        &&& is_wire_of(wps[wps.len() - 1].1, ps[ps.len() - 1].1)
        &&& entries_are_wire_of(wps.subrange(0, wps.len() - 1), ps.subrange(0, ps.len() - 1))
    }
}

/// Converts a document value into its wire form; total, it never fails.
pub fn to_wire(d: &DocValue) -> (r: WireValue)
    ensures
        is_wire_of(r, *d),
    decreases d,
{
    match d {
        DocValue::Null => WireValue::NullFlag(true),
        DocValue::Bool(b) => WireValue::Bool(*b),
        DocValue::Number(n) => WireValue::NumberText(n.clone()),
        DocValue::Str(s) => WireValue::StringText(s.clone()),
        DocValue::Sequence(ds) => {
            let mut ws: Vec<WireValue> = Vec::new();
            let mut i: usize = 0;
            while i < ds.len()
                invariant
                    *d == DocValue::Sequence(*ds),
                    i <= ds.len(),
                    items_are_wire_of(ws@, ds@.subrange(0, i as int)),
                decreases ds.len() - i,
            {
                proof {
                    assert(decreases_to!(*d => d->Sequence_0));
                    assert(decreases_to!(d->Sequence_0 => d->Sequence_0[i as int]));
                }
                let w = to_wire(&ds[i]);
                let ghost prev = ws@;
                ws.push(w);
                proof {
                    lemma_items_len(prev, ds@.subrange(0, i as int));
                    let done = ds@.subrange(0, i + 1);
                    assert(done.subrange(0, i as int) =~= ds@.subrange(0, i as int));
                    assert(ws@.subrange(0, i as int) =~= prev);
                }
                i = i + 1;
            }
            assert(ds@.subrange(0, ds.len() as int) =~= ds@);
            WireValue::ListOf(ws)
        },
        DocValue::Record(ps) => {
            let mut wps: Vec<(String, WireValue)> = Vec::new();
            let mut i: usize = 0;
            while i < ps.len()
                invariant
                    *d == DocValue::Record(*ps),
                    i <= ps.len(),
                    entries_are_wire_of(wps@, ps@.subrange(0, i as int)),
                decreases ps.len() - i,
            {
                proof {
                    assert(decreases_to!(*d => d->Record_0));
                    assert(decreases_to!(d->Record_0 => d->Record_0[i as int]));
                    assert(decreases_to!(d->Record_0[i as int] => d->Record_0[i as int].1));
                }
                let w = to_wire(&ps[i].1);
                let k = ps[i].0.clone();
                let ghost prev = wps@;
                wps.push((k, w));
                proof {
                    lemma_entries_len(prev, ps@.subrange(0, i as int));
                    let done = ps@.subrange(0, i + 1);
                    assert(done.subrange(0, i as int) =~= ps@.subrange(0, i as int));
                    assert(wps@.subrange(0, i as int) =~= prev);
                }
                i = i + 1;
            }
            assert(ps@.subrange(0, ps.len() as int) =~= ps@);
            WireValue::MapOf(wps)
        },
    }
}

proof fn lemma_items_len(ws: Seq<WireValue>, ds: Seq<DocValue>)
    requires
        items_are_wire_of(ws, ds),
    ensures
        ws.len() == ds.len(),
{
}

proof fn lemma_entries_len(wps: Seq<(String, WireValue)>, ps: Seq<(String, DocValue)>)
    requires
        entries_are_wire_of(wps, ps),
    ensures
        wps.len() == ps.len(),
{
}

/// Why a document cannot be stored as a whole item.
#[derive(Debug, PartialEq, Eq)]
pub enum ShapeError {
    /// The document is not a record; carries its wire form.
    NotARecord(WireValue),
    /// The document nests deeper than `MAX_DEPTH`.
    DepthExceeded,
}

/// The deepest nesting that a whole item may have; a record of scalars has
/// depth one.
pub const MAX_DEPTH: usize = 128;

/// `d` nests at most `n` levels deep: a scalar has depth zero, a sequence or
/// record one more than its deepest element or entry value.
pub open spec fn nests_within(d: DocValue, n: nat) -> bool
    decreases d,
{
    match d {
        DocValue::Sequence(ds) => n > 0 && items_nest_within(ds@, (n - 1) as nat),
        DocValue::Record(ps) => n > 0 && entries_nest_within(ps@, (n - 1) as nat),
        _ => true,
    }
}

/// Every element of `ds` nests at most `n` levels deep.
pub open spec fn items_nest_within(ds: Seq<DocValue>, n: nat) -> bool
    decreases ds,
{
    if ds.len() == 0 {
        true
    } else {
        nests_within(ds[ds.len() - 1], n) && items_nest_within(ds.subrange(0, ds.len() - 1), n)
    }
}

/// Every entry value of `ps` nests at most `n` levels deep.
pub open spec fn entries_nest_within(ps: Seq<(String, DocValue)>, n: nat) -> bool
    decreases ps,
{
    if ps.len() == 0 {
        true
    } else {
        nests_within(ps[ps.len() - 1].1, n) && entries_nest_within(
            ps.subrange(0, ps.len() - 1),
            n,
        )
    }
}

/// Tells whether `d` nests at most `n` levels deep, descending no further
/// than `n` levels itself.
pub fn check_nesting(d: &DocValue, n: usize) -> (r: bool)
    ensures
        r == nests_within(*d, n as nat),
    decreases d,
{
    match d {
        DocValue::Sequence(ds) => {
            if n == 0 {
                return false;
            }
            let mut ok = true;
            let mut i: usize = 0;
            while i < ds.len()
                invariant
                    *d == DocValue::Sequence(*ds),
                    n > 0,
                    i <= ds.len(),
                    ok == items_nest_within(ds@.subrange(0, i as int), (n - 1) as nat),
                decreases ds.len() - i,
            {
                proof {
                    assert(decreases_to!(*d => d->Sequence_0));
                    assert(decreases_to!(d->Sequence_0 => d->Sequence_0[i as int]));
                }
                let inner = check_nesting(&ds[i], n - 1);
                ok = inner && ok;
                assert(ds@.subrange(0, i + 1).subrange(0, i as int) =~= ds@.subrange(0, i as int));
                i = i + 1;
            }
            assert(ds@.subrange(0, ds.len() as int) =~= ds@);
            ok
        },
        DocValue::Record(ps) => {
            if n == 0 {
                return false;
            }
            let mut ok = true;
            let mut i: usize = 0;
            while i < ps.len()
                invariant
                    *d == DocValue::Record(*ps),
                    n > 0,
                    i <= ps.len(),
                    ok == entries_nest_within(ps@.subrange(0, i as int), (n - 1) as nat),
                decreases ps.len() - i,
            {
                proof {
                    assert(decreases_to!(*d => d->Record_0));
                    assert(decreases_to!(d->Record_0 => d->Record_0[i as int]));
                    assert(decreases_to!(d->Record_0[i as int] => d->Record_0[i as int].1));
                }
                let inner = check_nesting(&ps[i].1, n - 1);
                ok = inner && ok;
                assert(ps@.subrange(0, i + 1).subrange(0, i as int) =~= ps@.subrange(0, i as int));
                i = i + 1;
            }
            assert(ps@.subrange(0, ps.len() as int) =~= ps@);
            ok
        },
        _ => true,
    }
}

/// Nesting within `n` levels is nesting within any `m >= n`.
pub proof fn lemma_nests_more(d: DocValue, n: nat, m: nat)
    requires
        nests_within(d, n),
        n <= m,
    ensures
        nests_within(d, m),
    decreases d,
{
    match d {
        DocValue::Sequence(ds) => {
            assert(decreases_to!(d => ds));
            assert(decreases_to!(ds => ds@));
            lemma_items_nest_more(ds@, (n - 1) as nat, (m - 1) as nat);
        },
        DocValue::Record(ps) => {
            assert(decreases_to!(d => ps));
            assert(decreases_to!(ps => ps@));
            lemma_entries_nest_more(ps@, (n - 1) as nat, (m - 1) as nat);
        },
        _ => {},
    }
}

pub proof fn lemma_items_nest_more(ds: Seq<DocValue>, n: nat, m: nat)
    requires
        items_nest_within(ds, n),
        n <= m,
    ensures
        items_nest_within(ds, m),
    decreases ds,
{
    if ds.len() > 0 {
        lemma_nests_more(ds[ds.len() - 1], n, m);
        lemma_items_nest_more(ds.subrange(0, ds.len() - 1), n, m);
    }
}

pub proof fn lemma_entries_nest_more(ps: Seq<(String, DocValue)>, n: nat, m: nat)
    requires
        entries_nest_within(ps, n),
        n <= m,
    ensures
        entries_nest_within(ps, m),
    decreases ps,
{
    if ps.len() > 0 {
        assert(decreases_to!(ps => ps[ps.len() - 1]));
        lemma_nests_more(ps[ps.len() - 1].1, n, m);
        lemma_entries_nest_more(ps.subrange(0, ps.len() - 1), n, m);
    }
}

/// Converts a document that is to be stored as a whole item: it must nest
/// at most `MAX_DEPTH` levels deep and its wire form must be a map, whose
/// entries are returned.
pub fn to_top_level_item(d: &DocValue) -> (r: Result<Vec<(String, WireValue)>, ShapeError>)
    ensures
        r is Ok <==> nests_within(*d, MAX_DEPTH as nat) && d is Record,
        r == Err::<Vec<(String, WireValue)>, ShapeError>(ShapeError::DepthExceeded) <==> !nests_within(
            *d,
            MAX_DEPTH as nat,
        ),
        r matches Ok(m) ==> is_wire_of(WireValue::MapOf(m), *d),
        r matches Err(ShapeError::NotARecord(w)) ==> is_wire_of(w, *d),
{
    if !check_nesting(d, MAX_DEPTH) {
        return Err(ShapeError::DepthExceeded);
    }
    match to_wire(d) {
        WireValue::MapOf(m) => Ok(m),
        other => Err(ShapeError::NotARecord(other)),
    }
}

/// The variant kinds that documents and wire values share.
#[derive(Debug, Clone, Copy, PartialEq, Eq)]
pub enum Kind {
    Null,
    Bool,
    Number,
    Text,
    List,
    Record,
}

impl DocValue {
    pub open spec fn kind(self) -> Kind {
        match self {
            DocValue::Null => Kind::Null,
            DocValue::Bool(_) => Kind::Bool,
            DocValue::Number(_) => Kind::Number,
            DocValue::Str(_) => Kind::Text,
            DocValue::Sequence(_) => Kind::List,
            DocValue::Record(_) => Kind::Record,
        }
    }

    /// Number of elements or entries; zero for a scalar.
    pub open spec fn count(self) -> nat {
        match self {
            DocValue::Sequence(ds) => ds@.len(),
            DocValue::Record(ps) => ps@.len(),
            _ => 0,
        }
    }

    /// The `i`-th element or entry value.
    pub open spec fn child(self, i: int) -> DocValue
        recommends
            0 <= i < self.count(),
    {
        match self {
            DocValue::Sequence(ds) => ds[i],
            DocValue::Record(ps) => ps[i].1,
            _ => self,
        }
    }

    /// The keys of a record; empty for any other value.
    pub open spec fn keys(self) -> Set<Seq<char>> {
        match self {
            DocValue::Record(ps) => ps@.map_values(|p: (String, DocValue)| p.0@).to_set(),
            _ => Set::empty(),
        }
    }
}

impl WireValue {
    pub open spec fn kind(self) -> Kind {
        match self {
            WireValue::NullFlag(_) => Kind::Null,
            WireValue::Bool(_) => Kind::Bool,
            WireValue::NumberText(_) => Kind::Number,
            WireValue::StringText(_) => Kind::Text,
            WireValue::ListOf(_) => Kind::List,
            WireValue::MapOf(_) => Kind::Record,
        }
    }

    /// Number of elements or entries; zero for a scalar.
    pub open spec fn count(self) -> nat {
        match self {
            WireValue::ListOf(ws) => ws@.len(),
            WireValue::MapOf(wps) => wps@.len(),
            _ => 0,
        }
    }

    /// The `i`-th element or entry value.
    pub open spec fn child(self, i: int) -> WireValue
        recommends
            0 <= i < self.count(),
    {
        match self {
            WireValue::ListOf(ws) => ws[i],
            WireValue::MapOf(wps) => wps[i].1,
            _ => self,
        }
    }

    /// The keys of a map; empty for any other value.
    pub open spec fn keys(self) -> Set<Seq<char>> {
        match self {
            WireValue::MapOf(wps) => wps@.map_values(|p: (String, WireValue)| p.0@).to_set(),
            _ => Set::empty(),
        }
    }
}

proof fn lemma_items_at(ws: Seq<WireValue>, ds: Seq<DocValue>, i: int)
    requires
        items_are_wire_of(ws, ds),
        0 <= i < ds.len(),
    ensures
        is_wire_of(ws[i], ds[i]),
    decreases ds.len(),
{
    if i < ds.len() - 1 {
        lemma_items_at(ws.subrange(0, ws.len() - 1), ds.subrange(0, ds.len() - 1), i);
    }
}

proof fn lemma_entries_at(wps: Seq<(String, WireValue)>, ps: Seq<(String, DocValue)>, i: int)
    requires
        entries_are_wire_of(wps, ps),
        0 <= i < ps.len(),
    ensures
        wps[i].0@ == ps[i].0@,
        is_wire_of(wps[i].1, ps[i].1),
    decreases ps.len(),
{
    if i < ps.len() - 1 {
        lemma_entries_at(wps.subrange(0, wps.len() - 1), ps.subrange(0, ps.len() - 1), i);
    }
}

/// The wire form keeps the shape of the document: the same variant kind,
/// the same number of elements or entries, the same key set, and each
/// element or entry value is again the wire form of its counterpart, so the
/// same holds at every depth.
pub proof fn lemma_wire_keeps_shape(w: WireValue, d: DocValue)
    requires
        is_wire_of(w, d),
    ensures
        w.kind() == d.kind(),
        w.count() == d.count(),
        w.keys() == d.keys(),
        forall|i: int| 0 <= i < d.count() ==> is_wire_of(#[trigger] w.child(i), d.child(i)),
{
    match d {
        DocValue::Sequence(ds) => {
            let ws = w->ListOf_0;
            lemma_items_len(ws@, ds@);
            assert forall|i: int| 0 <= i < d.count() implies is_wire_of(
                #[trigger] w.child(i),
                d.child(i),
            ) by {
                lemma_items_at(ws@, ds@, i);
            }
        },
        DocValue::Record(ps) => {
            let wps = w->MapOf_0;
            lemma_entries_len(wps@, ps@);
            assert forall|i: int| 0 <= i < d.count() implies is_wire_of(
                #[trigger] w.child(i),
                d.child(i),
            ) by {
                lemma_entries_at(wps@, ps@, i);
            }
            let wk = wps@.map_values(|p: (String, WireValue)| p.0@);
            let dk = ps@.map_values(|p: (String, DocValue)| p.0@);
            assert forall|i: int| 0 <= i < dk.len() implies wk[i] == dk[i] by {
                lemma_entries_at(wps@, ps@, i);
            }
            assert(wk =~= dk);
        },
        _ => {},
    }
}

} // verus!
