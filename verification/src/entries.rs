//! A collection of dated items that holds at most one item per date.

use crate::date::Date;
use vstd::prelude::*;

verus! {

/// An item that belongs to one day of the journal.
pub trait Dated {
    /// The date the item belongs to.
    spec fn date_spec(&self) -> Date;

    /// The date the item belongs to.
    fn date(&self) -> (d: Date)
        ensures
            d == self.date_spec(),
    ;
}

/// Whether no two items of `items` share a date.
pub open spec fn distinct_dates<E: Dated>(items: Seq<E>) -> bool {
    forall|i: int, j: int|
        0 <= i < j < items.len() ==> (#[trigger] items[i]).date_spec() != (
        #[trigger] items[j]).date_spec()
}

/// Whether some item of `items` belongs to `date`.
pub open spec fn has_date<E: Dated>(items: Seq<E>, date: Date) -> bool {
    exists|i: int| 0 <= i < items.len() && (#[trigger] items[i]).date_spec() == date
}

/// The position of an item of `items` that belongs to `date`.
pub open spec fn position_of<E: Dated>(items: Seq<E>, date: Date) -> int {
    choose|i: int| 0 <= i < items.len() && (#[trigger] items[i]).date_spec() == date
}

/// The position of the item of `items` that belongs to `date`, if there is one.
pub open spec fn position_in<E: Dated>(items: Seq<E>, date: Date) -> Option<int> {
    if has_date(items, date) {
        Some(position_of(items, date))
    } else {
        None
    }
}

/// The items of `items` by their dates.
pub open spec fn by_date<E: Dated>(items: Seq<E>) -> Map<Date, E> {
    Map::new(|d: Date| has_date(items, d), |d: Date| items[position_of(items, d)])
}

/// Items keyed by their dates: at most one item per date, in the order in
/// which their dates first came in.
#[derive(Debug)]
pub struct EntrySet<E: Dated> {
    items: Vec<E>,
}

impl<E: Dated> EntrySet<E> {
    #[verifier::type_invariant]
    spec fn well_formed(self) -> bool {
        distinct_dates(self.items@)
    }

    /// The items in the order in which they are held.
    pub closed spec fn seq(&self) -> Seq<E> {
        self.items@
    }

    /// The items by their dates.
    pub open spec fn view(&self) -> Map<Date, E> {
        by_date(self.seq())
    }

    /// A collection without items.
    pub fn new() -> (s: Self)
        ensures
            s.seq() == Seq::<E>::empty(),
            s@ == Map::<Date, E>::empty(),
    {
        let s = EntrySet { items: Vec::new() };
        assert(s@ =~= Map::<Date, E>::empty());
        s
    }

    /// The number of items, which is the number of dates.
    pub fn len(&self) -> (n: usize)
        ensures
            n == self.seq().len(),
            distinct_dates(self.seq()),
    {
        proof {
            use_type_invariant(self);
        }
        self.items.len()
    }

    /// The item at position `i`.
    pub fn at(&self, i: usize) -> (e: &E)
        requires
            i < self.seq().len(),
        ensures
            *e == self.seq()[i as int],
            self@.contains_key(e.date_spec()),
            self@[e.date_spec()] == *e,
    {
        proof {
            use_type_invariant(self);
            lemma_by_date(self.items@);
        }
        &self.items[i]
    }

    /// The position of the item that belongs to `date`, if there is one.
    pub fn position(&self, date: &Date) -> (r: Option<usize>)
        ensures
            match r {
                Some(i) => i < self.seq().len() && self.seq()[i as int].date_spec() == *date,
                None => !has_date(self.seq(), *date),
            },
            r is Some == self@.contains_key(*date),
    {
        let n = self.items.len();
        let mut i: usize = 0;
        while i < n
            invariant
                n == self.items@.len(),
                i <= n,
                forall|k: int| 0 <= k < i ==> (#[trigger] self.items@[k]).date_spec() != *date,
            decreases n - i,
        {
            if self.items[i].date() == *date {
                assert(has_date(self.seq(), *date));
                return Some(i);
            }
            i += 1;
        }
        None
    }

    /// Whether an item belongs to `date`.
    pub fn contains(&self, date: &Date) -> (b: bool)
        ensures
            b == self@.contains_key(*date),
    {
        self.position(date).is_some()
    }

    /// The item that belongs to `date`, if there is one.
    pub fn get(&self, date: &Date) -> (r: Option<&E>)
        ensures
            match r {
                Some(e) => self@.contains_key(*date) && *e == self@[*date] && e.date_spec()
                    == *date,
                None => !self@.contains_key(*date),
            },
    {
        match self.position(date) {
            Some(i) => {
                proof {
                    use_type_invariant(self);
                    lemma_by_date(self.items@);
                }
                Some(&self.items[i])
            },
            None => None,
        }
    }

    /// Puts `item` under its date: in place of the item that was there, or
    /// else behind all others.
    pub fn insert(&mut self, item: E)
        ensures
            final(self)@ == old(self)@.insert(item.date_spec(), item),
            final(self).seq() == (match position_in(old(self).seq(), item.date_spec()) {
                Some(p) => old(self).seq().update(p, item),
                None => old(self).seq().push(item),
            }),
    {
        proof {
            use_type_invariant(&*self);
            lemma_by_date(self.items@);
        }
        let ghost before = self.items@;
        let date = item.date();
        let found = self.position(&date);
        // The items leave `self` while they change, so that `self` is
        // well formed at every step.
        let mut items: Vec<E> = Vec::new();
        std::mem::swap(&mut items, &mut self.items);
        match found {
            Some(i) => {
                items.set(i, item);
                proof {
                    assert(position_of(before, date) == i) by {
                        let p = position_of(before, date);
                        if p < i {
                            assert(before[p].date_spec() != before[i as int].date_spec());
                        } else if i < p {
                            assert(before[i as int].date_spec() != before[p].date_spec());
                        }
                    }
                    assert forall|a: int, b: int| 0 <= a < b < items@.len() implies (
                    #[trigger] items@[a]).date_spec() != (#[trigger] items@[b]).date_spec() by {
                        assert(before[a].date_spec() != before[b].date_spec());
                    }
                }
            },
            None => {
                items.push(item);
                proof {
                    assert forall|a: int, b: int| 0 <= a < b < items@.len() implies (
                    #[trigger] items@[a]).date_spec() != (#[trigger] items@[b]).date_spec() by {
                        if b < before.len() {
                            assert(before[a].date_spec() != before[b].date_spec());
                        } else {
                            assert(before[a].date_spec() != date);
                        }
                    }
                }
            },
        }
        proof {
            lemma_insert(before, items@, item);
        }
        self.items = items;
    }
}

impl<E: Dated + Clone> Clone for EntrySet<E> {
    /// A collection of copies of the items, in the same order.
    fn clone(&self) -> (copy: Self) {
        let mut copy = EntrySet::new();
        let mut i: usize = 0;
        while i < self.len()
            invariant
                i <= self.seq().len(),
            decreases self.seq().len() - i,
        {
            copy.insert(self.at(i).clone());
            i += 1;
        }
        copy
    }
}

/// What `by_date` holds for items with distinct dates: each item under its
/// own date, and no other date.
pub proof fn lemma_by_date<E: Dated>(items: Seq<E>)
    requires
        distinct_dates(items),
    ensures
        forall|i: int|
            0 <= i < items.len() ==> by_date(items).contains_key(
                (#[trigger] items[i]).date_spec(),
            ) && by_date(items)[items[i].date_spec()] == items[i],
        forall|d: Date| #[trigger]
            by_date(items).contains_key(d) ==> has_date(items, d) && 0 <= position_of(items, d)
                < items.len() && items[position_of(items, d)].date_spec() == d,
{
    assert forall|i: int| 0 <= i < items.len() implies by_date(items).contains_key(
        (#[trigger] items[i]).date_spec(),
    ) && by_date(items)[items[i].date_spec()] == items[i] by {
        let d = items[i].date_spec();
        assert(has_date(items, d));
        let p = position_of(items, d);
        assert(0 <= p < items.len() && items[p].date_spec() == d);
        if p < i {
            assert(items[p].date_spec() != items[i].date_spec());
        } else if i < p {
            assert(items[i].date_spec() != items[p].date_spec());
        }
    }
}

/// Replacing the item of a date, or appending an item of a new date, is an
/// insertion into the map by date.
proof fn lemma_insert<E: Dated>(before: Seq<E>, after: Seq<E>, item: E)
    requires
        distinct_dates(before),
        distinct_dates(after),
        match position_in(before, item.date_spec()) {
            Some(p) => after == before.update(p, item),
            None => after == before.push(item),
        },
    ensures
        by_date(after) == by_date(before).insert(item.date_spec(), item),
{
    let date = item.date_spec();
    let target = by_date(before).insert(date, item);
    lemma_by_date(before);
    lemma_by_date(after);
    assert forall|d: Date| by_date(after).contains_key(d) == target.contains_key(d) by {
        if by_date(after).contains_key(d) {
            let p = position_of(after, d);
            if d != date {
                assert(before[p].date_spec() == d);
            }
        }
        if target.contains_key(d) && d != date {
            let p = position_of(before, d);
            assert(after[p].date_spec() == d);
        }
        if d == date {
            match position_in(before, date) {
                Some(p) => {
                    assert(after[p].date_spec() == date);
                },
                None => {
                    assert(after[before.len() as int].date_spec() == date);
                },
            }
        }
    }
    assert forall|d: Date| by_date(after).contains_key(d) implies by_date(after)[d] == target[d] by {
        let p = position_of(after, d);
        if d != date {
            assert(before[p].date_spec() == d);
            assert(by_date(before)[before[p].date_spec()] == before[p]);
        } else {
            match position_in(before, date) {
                Some(q) => {
                    assert(after[q].date_spec() == date);
                    assert(by_date(after)[after[q].date_spec()] == after[q]);
                },
                None => {
                    let q = before.len() as int;
                    assert(after[q].date_spec() == date);
                    assert(by_date(after)[after[q].date_spec()] == after[q]);
                },
            }
        }
    }
    assert(by_date(after) =~= target);
}

} // verus!
