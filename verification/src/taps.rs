//! Intermediate outputs recorded by name, for a layer-by-layer comparison of
//! two runs. A value is of any type `T`: nothing here looks inside one.

use vstd::prelude::*;

use crate::text::{concat, decimal, decimal_of};

verus! {

/// Records intermediate outputs by name. Off everywhere but in a comparison,
/// where it costs a device read per tap; off, a tap is a branch.
#[derive(Debug)]
pub struct Taps<T> {
    records: Option<Vec<(String, Vec<T>)>>,
}

/// A record with its name as a sequence of characters.
pub open spec fn record_view<T>(records: Seq<(String, Vec<T>)>) -> Seq<(Seq<char>, Seq<T>)> {
    Seq::new(records.len(), |i: int| (records[i].0@, records[i].1@))
}

impl<T> View for Taps<T> {
    type V = Option<Seq<(Seq<char>, Seq<T>)>>;

    closed spec fn view(&self) -> Option<Seq<(Seq<char>, Seq<T>)>> {
        match self.records {
            Some(records) => Some(record_view(records@)),
            None => None,
        }
    }
}

impl<T> Taps<T> {
    /// Taps that record nothing.
    pub fn off() -> (res: Self)
        ensures
            res@ is None,
    {
        Taps { records: None }
    }

    /// Taps that record everything.
    pub fn on() -> (res: Self)
        ensures
            res@ == Some(Seq::<(Seq<char>, Seq<T>)>::empty()),
    {
        let res = Taps { records: Some(Vec::new()) };
        assert(res@->0 =~= Seq::<(Seq<char>, Seq<T>)>::empty());
        res
    }

    /// Whether anything is recorded, and so worth reading from the device.
    pub fn is_on(&self) -> (res: bool)
        ensures
            res == (self@ is Some),
    {
        self.records.is_some()
    }

    /// Records `values` under `name`, unless the taps are off.
    pub fn record(&mut self, name: &str, values: Vec<T>)
        ensures
            final(self)@ == match old(self)@ {
                Some(records) => Some(records.push((name@, values@))),
                None => None,
            },
    {
        if let Some(records) = &mut self.records {
            let ghost before = records@;
            let ghost read = values@;
            records.push((name.to_string(), values));
            assert(record_view(records@) =~= record_view(before).push((name@, read)));
        }
    }

    /// `record` with a name only built when something is recorded.
    pub fn record_with<F: FnOnce() -> String>(&mut self, name: F, values: Vec<T>)
        requires
            old(self)@ is Some ==> name.requires(()),
        ensures
            match old(self)@ {
                Some(records) => exists|built: String| #[trigger]
                    name.ensures((), built) && final(self)@ == Some(
                        records.push((built@, values@)),
                    ),
                None => final(self)@ is None,
            },
    {
        if self.is_on() {
            let built: String = name();
            self.record(&built, values);
        }
    }

    /// What was recorded, in the order it was.
    pub fn into_records(self) -> (res: Vec<(String, Vec<T>)>)
        ensures
            record_view(res@) == (match self@ {
                Some(records) => records,
                None => Seq::empty(),
            }),
    {
        match self.records {
            Some(records) => records,
            None => {
                let none: Vec<(String, Vec<T>)> = Vec::new();
                assert(record_view(none@) =~= Seq::empty());
                none
            },
        }
    }
}

/// The name of the tap of layer or step `n` of those called `kind`.
pub fn tap_name(kind: &str, n: usize) -> (res: String)
    ensures
        res@ == kind@ + "."@ + decimal(n as nat),
{
    let mut res = concat(kind, ".");
    res.append(&decimal_of(n as u64));
    res
}

/// What was recorded is read record by record: each name with its values.
pub proof fn law_records_are_read_as_recorded<T>(records: Seq<(String, Vec<T>)>, i: int)
    requires
        0 <= i < records.len(),
    ensures
        record_view(records).len() == records.len(),
        record_view(records)[i] == (records[i].0@, records[i].1@),
{
}

} // verus!
