use vstd::prelude::*;
use crate::civil::{Stamp, TimeOfDay};
use crate::clock::{now_local, parse_time_of_day, parsed_time_of, hh_mm};

verus! {

/// One recorded dose: which medicine, how many units, and when.
#[derive(Debug)]
pub struct DoseEntry {
    pub name: String,
    pub dosage: u32,
    pub time_taken: Stamp,
}

/// A dose entry as a mathematical value.
pub struct EntryView {
    pub name: Seq<char>,
    pub dosage: nat,
    pub time_taken: Stamp,
}

impl View for DoseEntry {
    type V = EntryView;

    open spec fn view(&self) -> EntryView {
        EntryView { name: self.name@, dosage: self.dosage as nat, time_taken: self.time_taken }
    }
}

impl DoseEntry {
    pub fn copy(&self) -> (r: DoseEntry)
        ensures
            r@ == self@,
    {
        DoseEntry { name: self.name.clone(), dosage: self.dosage, time_taken: self.time_taken }
    }
}

/// The time of an entry: `now` itself, or today's date at the given time.
pub open spec fn entry_time(at: Option<TimeOfDay>, now: Stamp) -> Stamp {
    match at {
        Some(t) => now.at_spec(t),
        None => now,
    }
}

/// A new entry; a missing dosage counts as one unit and a missing time of
/// day means `now`.
pub fn new_entry(name: String, dosage: Option<u32>, at: Option<TimeOfDay>, now: Stamp) -> (r:
    DoseEntry)
    ensures
        r.name@ == name@,
        r.dosage == match dosage {
            Some(d) => d,
            None => 1,
        },
        r.time_taken == entry_time(at, now),
        now.wf() && (at matches Some(t) ==> t.wf()) ==> r.time_taken.wf(),
{
    let dosage = match dosage {
        Some(d) => d,
        None => 1,
    };
    let time_taken = match at {
        Some(t) => now.at(t),
        None => now,
    };
    DoseEntry { name, dosage, time_taken }
}

/// A new entry from what the user typed: the time of day, if given, is
/// parsed and placed on the date of `now`. A time that does not parse is
/// the error, and no entry is made.
pub fn entry_from_input(name: String, dosage: Option<u32>, at: Option<&str>, now: Stamp) -> (r:
    Result<DoseEntry, jiff::Error>)
    requires
        now.wf(),
    ensures
        r is Ok <==> (at matches Some(s) ==> parsed_time_of(s@) is Some),
        r is Ok ==> ({
            let e = r->Ok_0;
            &&& e.name@ == name@
            &&& e.dosage == match dosage {
                Some(d) => d,
                None => 1,
            }
            &&& e.time_taken.wf()
            &&& e.time_taken == match at {
                Some(s) => now.at_spec(parsed_time_of(s@)->Some_0),
                None => now,
            }
        }),
        at is Some && hh_mm(at->Some_0@) is Some ==> r is Ok && r->Ok_0.time_taken == now.at_spec(
            hh_mm(at->Some_0@)->Some_0),
{
    let time = match at {
        Some(s) => match parse_time_of_day(s) {
            Ok(t) => Some(t),
            Err(e) => {
                return Err(e);
            },
        },
        None => None,
    };
    Ok(new_entry(name, dosage, time, now))
}

/// A new entry taken now, or today at the time of day typed.
pub fn add_entry(name: String, dosage: Option<u32>, at: Option<&str>) -> (r: Result<DoseEntry, jiff::Error>)
    ensures
        r is Ok <==> (at matches Some(s) ==> parsed_time_of(s@) is Some),
        r is Ok ==> ({
            let e = r->Ok_0;
            &&& e.name@ == name@
            &&& e.dosage == match dosage {
                Some(d) => d,
                None => 1,
            }
            &&& e.time_taken.wf()
            &&& at is Some ==> Some(e.time_taken.time_of_day()) == parsed_time_of(at->Some_0@)
        }),
        at is Some && hh_mm(at->Some_0@) is Some ==> r is Ok && Some(r->Ok_0.time_taken.time_of_day())
            == hh_mm(at->Some_0@),
{
    entry_from_input(name, dosage, at, now_local())
}

} // verus!
