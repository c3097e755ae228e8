//! Response and request headers as an ordered list of name and value pairs.
//! Names are compared without regard to the case of ASCII letters, and a name
//! may occur more than once.

use vstd::prelude::*;
use crate::text::{chars_of, eq_ignore_case, equals_ignore_case};

verus! {

/// The mathematical model of a header list: names and values in order.
pub type HeaderSeq = Seq<(Seq<char>, Seq<char>)>;

/// One header line.
pub struct Header {
    pub name: String,
    pub value: String,
}

/// An ordered list of headers.
pub struct Headers {
    pub entries: Vec<Header>,
}

/// The value of the first entry called `name`, if there is one.
pub open spec fn first_value(h: HeaderSeq, name: Seq<char>) -> Option<Seq<char>>
    decreases h.len(),
{
    if h.len() == 0 {
        None
    } else if eq_ignore_case(h[0].0, name) {
        Some(h[0].1)
    } else {
        first_value(h.drop_first(), name)
    }
}

/// The list with every entry called `name` taken out.
pub open spec fn without(h: HeaderSeq, name: Seq<char>) -> HeaderSeq
    decreases h.len(),
{
    if h.len() == 0 {
        h
    } else if eq_ignore_case(h[0].0, name) {
        without(h.drop_first(), name)
    } else {
        seq![h[0]] + without(h.drop_first(), name)
    }
}

/// The list after `name` was set to `value`: earlier entries of that name are
/// gone and one new entry stands at the end.
pub open spec fn with_single(h: HeaderSeq, name: Seq<char>, value: Seq<char>) -> HeaderSeq {
    without(h, name).push((name, value))
}

/// The list with the value of every entry called `name` replaced by `value`.
pub open spec fn with_value_replaced(h: HeaderSeq, name: Seq<char>, value: Seq<char>) -> HeaderSeq {
    Seq::new(
        h.len(),
        |i: int|
            if eq_ignore_case(h[i].0, name) {
                (h[i].0, value)
            } else {
                h[i]
            },
    )
}

/// No entry of the name is left after `without`.
pub proof fn lemma_without_has_none(h: HeaderSeq, name: Seq<char>)
    ensures
        first_value(without(h, name), name) is None,
    decreases h.len(),
{
    if h.len() > 0 {
        lemma_without_has_none(h.drop_first(), name);
        if !eq_ignore_case(h[0].0, name) {
            let rest = without(h.drop_first(), name);
            assert((seq![h[0]] + rest)[0] == h[0]);
            assert((seq![h[0]] + rest).drop_first() =~= rest);
        }
    }
}

/// Taking out the entries of one name leaves the first value of every other
/// name as it was.
pub proof fn lemma_without_other(h: HeaderSeq, name: Seq<char>, other: Seq<char>)
    requires
        !eq_ignore_case(name, other),
    ensures
        first_value(without(h, name), other) == first_value(h, other),
    decreases h.len(),
{
    if h.len() > 0 {
        lemma_without_other(h.drop_first(), name, other);
        if !eq_ignore_case(h[0].0, name) {
            let rest = without(h.drop_first(), name);
            assert((seq![h[0]] + rest)[0] == h[0]);
            assert((seq![h[0]] + rest).drop_first() =~= rest);
        }
    }
}

/// An entry added at the end is found only where no earlier entry has the
/// name that is looked up.
pub proof fn lemma_first_value_push(h: HeaderSeq, e: (Seq<char>, Seq<char>), name: Seq<char>)
    ensures
        first_value(h.push(e), name) == match first_value(h, name) {
            Some(v) => Some(v),
            None => if eq_ignore_case(e.0, name) {
                Some(e.1)
            } else {
                None
            },
        },
    decreases h.len(),
{
    let p = h.push(e);
    if h.len() > 0 {
        assert(p[0] == h[0]);
        assert(p.drop_first() =~= h.drop_first().push(e));
        lemma_first_value_push(h.drop_first(), e, name);
    } else {
        assert(p[0] == e);
        assert(p.drop_first().len() == 0);
        assert(first_value(p.drop_first(), name) is None);
    }
}

/// Once `name` was set to `value`, looking up `name` gives `value`, and
/// looking up any other name gives what it gave before.
pub proof fn lemma_with_single(h: HeaderSeq, name: Seq<char>, value: Seq<char>, other: Seq<char>)
    ensures
        first_value(with_single(h, name, value), name) == Some(value),
        !eq_ignore_case(name, other) ==> first_value(with_single(h, name, value), other)
            == first_value(h, other),
{
    lemma_without_has_none(h, name);
    lemma_first_value_push(without(h, name), (name, value), name);
    if !eq_ignore_case(name, other) {
        lemma_without_other(h, name, other);
        lemma_first_value_push(without(h, name), (name, value), other);
    }
}

/// Replacing the values of one name leaves the first value of every other
/// name as it was, and gives the new value to the name itself where it
/// occurs.
pub proof fn lemma_with_value_replaced(
    h: HeaderSeq,
    name: Seq<char>,
    value: Seq<char>,
    other: Seq<char>,
)
    ensures
        first_value(with_value_replaced(h, name, value), name) == if first_value(h, name) is Some {
            Some(value)
        } else {
            None
        },
        !eq_ignore_case(name, other) ==> first_value(with_value_replaced(h, name, value), other)
            == first_value(h, other),
    decreases h.len(),
{
    if h.len() > 0 {
        let r = with_value_replaced(h, name, value);
        assert(r.drop_first() =~= with_value_replaced(h.drop_first(), name, value));
        lemma_with_value_replaced(h.drop_first(), name, value, other);
    }
}

impl View for Headers {
    type V = HeaderSeq;

    open spec fn view(&self) -> HeaderSeq {
        Seq::new(self.entries@.len(), |i: int| (self.entries@[i].name@, self.entries@[i].value@))
    }
}

impl Headers {
    /// An empty list.
    pub fn new() -> (out: Headers)
        ensures
            out@ == Seq::<(Seq<char>, Seq<char>)>::empty(),
    {
        let out = Headers { entries: Vec::new() };
        assert(out@ =~= Seq::<(Seq<char>, Seq<char>)>::empty());
        out
    }

    /// The number of entries, duplicates counted.
    pub fn len(&self) -> (n: usize)
        ensures
            n == self@.len(),
    {
        self.entries.len()
    }

    /// The name of the entry at `index`.
    pub fn name_at(&self, index: usize) -> (out: String)
        requires
            index < self@.len(),
        ensures
            out@ == self@[index as int].0,
    {
        self.entries[index].name.clone()
    }

    /// The value of the entry at `index`.
    pub fn value_at(&self, index: usize) -> (out: String)
        requires
            index < self@.len(),
        ensures
            out@ == self@[index as int].1,
    {
        self.entries[index].value.clone()
    }

    /// The value of the first entry called `name`.
    pub fn get(&self, name: &str) -> (out: Option<String>)
        ensures
            match out {
                Some(v) => first_value(self@, name@) == Some(v@),
                None => first_value(self@, name@) is None,
            },
    {
        let wanted: Vec<char> = chars_of(name);
        let mut i: usize = 0;
        assert(self@.skip(0) =~= self@);
        while i < self.entries.len()
            invariant
                i <= self.entries.len(),
                wanted@ == name@,
                first_value(self@, name@) == first_value(self@.skip(i as int), name@),
            decreases self.entries.len() - i,
        {
            let here: Vec<char> = chars_of(self.entries[i].name.as_str());
            proof {
                assert(self@.skip(i as int)[0] == self@[i as int]);
                assert(self@.skip(i as int).drop_first() =~= self@.skip(i as int + 1));
            }
            if equals_ignore_case(&here, &wanted) {
                return Some(self.entries[i].value.clone());
            }
            i += 1;
        }
        assert(self@.skip(i as int).len() == 0);
        None
    }

    /// Adds an entry at the end and keeps every entry that is there.
    pub fn append(&mut self, name: &str, value: &str)
        ensures
            final(self)@ == old(self)@.push((name@, value@)),
    {
        self.entries.push(Header { name: name.to_owned(), value: value.to_owned() });
        assert(self@ =~= old(self)@.push((name@, value@)));
    }

    /// Sets `name` to `value`: entries of that name are removed and one new
    /// entry is added at the end.
    pub fn insert(&mut self, name: &str, value: &str)
        ensures
            final(self)@ == with_single(old(self)@, name@, value@),
    {
        let wanted: Vec<char> = chars_of(name);
        let mut kept: Vec<Header> = Vec::new();
        let mut i: usize = 0;
        assert(self@.skip(0) =~= self@);
        assert(Seq::<(Seq<char>, Seq<char>)>::empty() + without(self@, name@) =~= without(
            self@,
            name@,
        ));
        while i < self.entries.len()
            invariant
                i <= self.entries.len(),
                wanted@ == name@,
                *self == *old(self),
                without(self@, name@) == (Headers { entries: kept })@ + without(
                    self@.skip(i as int),
                    name@,
                ),
            decreases self.entries.len() - i,
        {
            let here: Vec<char> = chars_of(self.entries[i].name.as_str());
            let ghost before = (Headers { entries: kept })@;
            let ghost rest = without(self@.skip(i as int + 1), name@);
            proof {
                assert(self@.skip(i as int)[0] == self@[i as int]);
                assert(self@.skip(i as int).drop_first() =~= self@.skip(i as int + 1));
            }
            if !equals_ignore_case(&here, &wanted) {
                kept.push(
                    Header {
                        name: self.entries[i].name.clone(),
                        value: self.entries[i].value.clone(),
                    },
                );
                assert((Headers { entries: kept })@ =~= before.push(self@[i as int]));
                assert(before.push(self@[i as int]) + rest =~= before + (seq![self@[i as int]]
                    + rest));
            }
            i += 1;
        }
        assert(without(self@.skip(i as int), name@).len() == 0);
        assert((Headers { entries: kept })@ + without(self@.skip(i as int), name@) =~= (Headers {
            entries: kept,
        })@);
        let ghost before = (Headers { entries: kept })@;
        kept.push(Header { name: name.to_owned(), value: value.to_owned() });
        assert((Headers { entries: kept })@ =~= before.push((name@, value@)));
        self.entries = kept;
    }

    /// Replaces the value of every entry called `name`; the list keeps its
    /// length, names and order.
    pub fn replace_value(&mut self, name: &str, value: &str)
        ensures
            final(self)@ == with_value_replaced(old(self)@, name@, value@),
    {
        let wanted: Vec<char> = chars_of(name);
        let mut i: usize = 0;
        while i < self.entries.len()
            invariant
                i <= self.entries.len(),
                wanted@ == name@,
                self@.len() == old(self)@.len(),
                forall|k: int|
                    0 <= k < i ==> self@[k] == with_value_replaced(old(self)@, name@, value@)[k],
                forall|k: int| i <= k < self@.len() ==> self@[k] == old(self)@[k],
            decreases self.entries.len() - i,
        {
            let here: Vec<char> = chars_of(self.entries[i].name.as_str());
            let ghost before = self@;
            assert(before[i as int] == old(self)@[i as int]);
            if equals_ignore_case(&here, &wanted) {
                let kept_name: String = self.entries[i].name.clone();
                self.entries.set(i, Header { name: kept_name, value: value.to_owned() });
                assert(self@[i as int] == (before[i as int].0, value@));
            } else {
                assert(self@[i as int] == before[i as int]);
            }
            assert forall|k: int| 0 <= k <= i implies self@[k] == with_value_replaced(
                old(self)@,
                name@,
                value@,
            )[k] by {
                if k < i {
                    assert(self@[k] == before[k]);
                }
            }
            assert forall|k: int| i < k < self@.len() implies self@[k] == old(self)@[k] by {
                assert(self@[k] == before[k]);
            }
            i += 1;
        }
        assert(self@ =~= with_value_replaced(old(self)@, name@, value@));
    }
}

} // verus!
