use vstd::prelude::*;
use vstd::string::StrSliceExecFns;
use vstd::string::StringExecFns;
use crate::value::{
    DocValue, WireValue, MAX_DEPTH, entries_nest_within, is_wire_of, nests_within, lemma_entries_nest_more,
    to_top_level_item,
};

verus! {

/// The stored entity. First and last name together form the primary key.
#[derive(Debug, PartialEq, Eq)]
pub struct Person {
    pub first_name: String,
    pub last_name: String,
    pub age: u8,
}

/// The decimal digit `d`, for `d < 10`.
pub open spec fn digit_char(d: nat) -> char {
    "0123456789"@[d as int]
}

/// The decimal text of `n`, without sign or leading zeros.
pub open spec fn decimal(n: nat) -> Seq<char>
    decreases n,
{
    if n < 10 {
        seq![digit_char(n)]
    } else {
        decimal(n / 10).push(digit_char(n % 10))
    }
}

fn append_digit(s: &mut String, d: u8)
    requires
        d < 10,
    ensures
        final(s)@ == old(s)@.push(digit_char(d as nat)),
{
    let digits = "0123456789";
    proof {
        reveal_strlit("0123456789");
    }
    let one = digits.substring_char(d as usize, d as usize + 1);
    s.append(one);
    assert(one@ =~= seq![digit_char(d as nat)]);
}

/// The decimal text of a byte-sized number.
pub fn decimal_text(n: u8) -> (r: String)
    ensures
        r@ == decimal(n as nat),
{
    let mut s = String::new();
    if n >= 100 {
        append_digit(&mut s, n / 100);
    }
    if n >= 10 {
        append_digit(&mut s, (n / 10) % 10);
    }
    append_digit(&mut s, n % 10);
    proof {
        reveal_with_fuel(decimal, 3);
        if n >= 100 {
            assert((n as nat / 10) / 10 == n as nat / 100);
            assert(n as nat / 100 < 10);
        }
        assert(s@ =~= decimal(n as nat));
    }
    s
}

/// `d` is the document form of `p`: a record of `first_name`, `last_name`
/// and `age`, in that order, the names as strings and the age as a number.
pub open spec fn is_doc_of(d: DocValue, p: Person) -> bool {
    &&& d is Record
    &&& d->Record_0@.len() == 3
    &&& d->Record_0@[0].0@ == "first_name"@
    &&& d->Record_0@[0].1 is Str
    &&& d->Record_0@[0].1->Str_0@ == p.first_name@
    &&& d->Record_0@[1].0@ == "last_name"@
    &&& d->Record_0@[1].1 is Str
    &&& d->Record_0@[1].1->Str_0@ == p.last_name@
    &&& d->Record_0@[2].0@ == "age"@
    &&& d->Record_0@[2].1 is Number
    &&& d->Record_0@[2].1->Number_0@ == decimal(p.age as nat)
}

/// `key` names `p`'s item: `last_name` then `first_name`, each as a string.
pub open spec fn is_key_of(key: Seq<(String, WireValue)>, p: Person) -> bool {
    &&& key.len() == 2
    &&& key[0].0@ == "last_name"@
    &&& key[0].1 is StringText
    &&& key[0].1->StringText_0@ == p.last_name@
    &&& key[1].0@ == "first_name"@
    &&& key[1].1 is StringText
    &&& key[1].1->StringText_0@ == p.first_name@
}

/// A person's document is a record of scalars: it nests one level deep.
proof fn lemma_doc_is_shallow(d: DocValue, p: Person)
    requires
        is_doc_of(d, p),
    ensures
        nests_within(d, MAX_DEPTH as nat),
{
    let ps = d->Record_0@;
    assert(nests_within(ps[0].1, 0));
    assert(nests_within(ps[1].1, 0));
    assert(nests_within(ps[2].1, 0));
    assert(ps.subrange(0, 1)[0] == ps[0]);
    assert(ps.subrange(0, 2)[1] == ps[1]);
    assert(ps.subrange(0, 1).subrange(0, 0) =~= ps.subrange(0, 0));
    assert(ps.subrange(0, 2).subrange(0, 1) =~= ps.subrange(0, 1));
    assert(ps.subrange(0, 3).subrange(0, 2) =~= ps.subrange(0, 2));
    assert(ps.subrange(0, 3) =~= ps);
    assert(entries_nest_within(ps.subrange(0, 0), 0));
    assert(entries_nest_within(ps.subrange(0, 1), 0));
    assert(entries_nest_within(ps.subrange(0, 2), 0));
    assert(entries_nest_within(ps, 0));
    lemma_entries_nest_more(ps, 0, (MAX_DEPTH - 1) as nat);
}

impl Person {
    /// The generic document form of this person.
    pub fn to_doc(&self) -> (r: DocValue)
        ensures
            is_doc_of(r, *self),
    {
        let mut fields: Vec<(String, DocValue)> = Vec::new();
        fields.push((String::from_str("first_name"), DocValue::Str(self.first_name.clone())));
        fields.push((String::from_str("last_name"), DocValue::Str(self.last_name.clone())));
        fields.push((String::from_str("age"), DocValue::Number(decimal_text(self.age))));
        DocValue::Record(fields)
    }

    /// The whole item to store for this person: the wire form of its
    /// document. A person's document is a record, so this never fails.
    pub fn to_item(&self) -> (r: Vec<(String, WireValue)>)
        ensures
            exists|d: DocValue| is_doc_of(d, *self) && is_wire_of(WireValue::MapOf(r), d),
    {
        let d = self.to_doc();
        proof {
            lemma_doc_is_shallow(d, *self);
        }
        match to_top_level_item(&d) {
            Ok(m) => m,
            Err(_) => {
                assert(false);
                Vec::new()
            },
        }
    }

    /// The primary-key fields that name this person's item.
    pub fn primary_key(&self) -> (r: Vec<(String, WireValue)>)
        ensures
            is_key_of(r@, *self),
    {
        let mut key: Vec<(String, WireValue)> = Vec::new();
        key.push((String::from_str("last_name"), WireValue::StringText(self.last_name.clone())));
        key.push((String::from_str("first_name"), WireValue::StringText(self.first_name.clone())));
        key
    }
}

} // verus!
