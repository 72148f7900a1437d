//! The beds the cat sleeps in. How they look is drawn by the caller; the
//! library only knows which ones there are.

use vstd::prelude::*;

verus! {

#[derive(Clone, Copy, Debug, PartialEq, Eq, Structural)]
pub enum Bed {
    Duck,
    Donut,
    Scratcher,
    Basket,
}

pub const BEDS: [Bed; 4] = [Bed::Duck, Bed::Donut, Bed::Scratcher, Bed::Basket];

} // verus!
