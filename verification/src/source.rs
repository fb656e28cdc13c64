//! A named, in-memory source file.

use vstd::prelude::*;

verus! {

/// One source: a name (a file path, or a synthetic name like `<inline>`)
/// and its text.
#[derive(Debug)]
pub struct Source {
    name: String,
    text: String,
}

impl Source {
    pub closed spec fn spec_name(&self) -> Seq<char> {
        self.name@
    }

    pub closed spec fn spec_text(&self) -> Seq<char> {
        self.text@
    }

    pub fn new(name: &str, text: &str) -> (s: Self)
        ensures
            s.spec_name() == name@,
            s.spec_text() == text@,
    {
        Source { name: name.to_owned(), text: text.to_owned() }
    }

    pub fn name(&self) -> (s: &str)
        ensures
            s@ == self.spec_name(),
    {
        self.name.as_str()
    }

    pub fn text(&self) -> (s: &str)
        ensures
            s@ == self.spec_text(),
    {
        self.text.as_str()
    }
}

impl Clone for Source {
    fn clone(&self) -> (s: Self)
        ensures
            s.spec_name() == self.spec_name(),
            s.spec_text() == self.spec_text(),
    {
        Source { name: self.name.clone(), text: self.text.clone() }
    }
}

} // verus!
