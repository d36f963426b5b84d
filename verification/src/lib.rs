use vstd::prelude::*;

pub mod cacher;
pub mod date;
pub mod keyed;
pub mod lang;
pub mod page;
pub mod paste;
pub mod text;
pub mod time;

verus! {
}
