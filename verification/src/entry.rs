use vstd::prelude::*;
use vstd::string::StringExecFns;
use crate::error::BrewLogError;

verus! {

/// Upper bound of the alcohol percentage, in hundredths of a percent
/// (inclusive range 0 to 100 percent).
pub const MAX_ALCOHOL_CENTI_PCT: i64 = 10000;

/// One logged consumption event.
///
/// Quantities are fixed-point: `alcohol_percentage` is in hundredths of a
/// percent and `volume_ml` in hundredths of a millilitre, so a 5.0 % beer of
/// 330.0 ml is stored as `500` and `33000`. `date` is an ISO-formatted
/// calendar date and is the bucket all aggregation works on.
pub struct BeerEntry {
    pub id: String,
    pub name: String,
    pub alcohol_percentage: i64,
    pub volume_ml: i64,
    pub date: String,
    pub notes: String,
}

/// The mathematical image of an entry: every text field as a character
/// sequence, every quantity as an unbounded integer.
pub ghost struct EntryView {
    pub id: Seq<char>,
    pub name: Seq<char>,
    pub alcohol_percentage: int,
    pub volume_ml: int,
    pub date: Seq<char>,
    pub notes: Seq<char>,
}

impl View for BeerEntry {
    type V = EntryView;

    open spec fn view(&self) -> EntryView {
        EntryView {
            id: self.id@,
            name: self.name@,
            alcohol_percentage: self.alcohol_percentage as int,
            volume_ml: self.volume_ml as int,
            date: self.date@,
            notes: self.notes@,
        }
    }
}

/// The validation rule for an entry's mutable quantities: a non-empty name,
/// an alcohol percentage within 0 to 100 percent, and a strictly positive
/// volume. Notes and dates are unconstrained.
pub open spec fn valid_fields(name: Seq<char>, pct: int, vol: int) -> bool {
    &&& name.len() > 0
    &&& 0 <= pct <= MAX_ALCOHOL_CENTI_PCT
    &&& vol > 0
}

/// An entry is valid when its fields pass the validation rule.
pub open spec fn valid_entry(e: EntryView) -> bool {
    valid_fields(e.name, e.alcohol_percentage, e.volume_ml)
}

/// Checks the validation rule, handing back the precise `InvalidInput`
/// error of the first violated constraint, or nothing when all hold.
pub fn check_entry_fields(name: &String, pct: i64, vol: i64) -> (r: Option<BrewLogError>)
    ensures
        r is None <==> valid_fields(name@, pct as int, vol as int),
        r matches Some(e) ==> e is InvalidInput,
{
    if name.as_str().is_empty() {
        Some(BrewLogError::InvalidInput(String::from_str("Name cannot be empty")))
    } else if pct < 0 || pct > MAX_ALCOHOL_CENTI_PCT {
        Some(
            BrewLogError::InvalidInput(
                String::from_str("Alcohol percentage must be between 0 and 100"),
            ),
        )
    } else if vol <= 0 {
        Some(BrewLogError::InvalidInput(String::from_str("Volume must be positive")))
    } else {
        None
    }
}

impl Clone for BeerEntry {
    fn clone(&self) -> (r: Self)
        ensures
            r == *self,
    {
        BeerEntry {
            id: self.id.clone(),
            name: self.name.clone(),
            alcohol_percentage: self.alcohol_percentage,
            volume_ml: self.volume_ml,
            date: self.date.clone(),
            notes: self.notes.clone(),
        }
    }
}

} // verus!
