//! The pastebin: what a paste holds and what its page shows.
use vstd::prelude::*;

use crate::page::CorePageContext;

verus! {

/// A paste, as its form sends it.
pub struct Paste {
    pub content: String,
}

/// What the template of a paste's page gets.
pub struct PastePageContext<'a> {
    pub paste: String,
    pub id: String,
    pub core: CorePageContext<'a>,
}

impl<'a> PastePageContext<'a> {
    pub fn new(paste: String, id: String, core: CorePageContext<'a>) -> (c: PastePageContext<'a>)
        ensures
            c.paste == paste,
            c.id == id,
            c.core == core,
    {
        PastePageContext { paste, id, core }
    }
}

} // verus!
