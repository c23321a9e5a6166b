//! A snapshot of the process environment, taken once and handed to every
//! function that resolves a variable.

use vstd::prelude::*;
use vstd::string::*;
use crate::text::equal;

verus! {

/// What an environment variable holds: text, or something that is not valid
/// Unicode, of which only the way it is shown for debugging is kept.
#[derive(Debug, Clone, PartialEq, Eq)]
pub enum Content {
    Text(String),
    NotUnicode(String),
}

pub enum ContentView {
    Text(Seq<char>),
    NotUnicode(Seq<char>),
}

impl View for Content {
    type V = ContentView;

    open spec fn view(&self) -> ContentView {
        match self {
            Content::Text(text) => ContentView::Text(text@),
            Content::NotUnicode(shown) => ContentView::NotUnicode(shown@),
        }
    }
}

/// One environment variable.
#[derive(Debug, Clone, PartialEq, Eq)]
pub struct Variable {
    pub name: String,
    pub value: Content,
}

pub struct VariableView {
    pub name: Seq<char>,
    pub value: ContentView,
}

impl View for Variable {
    type V = VariableView;

    open spec fn view(&self) -> VariableView {
        VariableView { name: self.name@, value: self.value@ }
    }
}

/// The variables of the environment; of two with one name the first counts.
#[derive(Debug, Clone, PartialEq, Eq)]
pub struct Environment {
    pub variables: Vec<Variable>,
}

impl View for Environment {
    type V = Seq<VariableView>;

    open spec fn view(&self) -> Seq<VariableView> {
        self.variables@.map_values(|variable: Variable| variable@)
    }
}

/// What looking a variable up gives: its text, that there is none, or, for
/// a value that is not valid Unicode, the way that value is shown.
#[derive(Debug, Clone, PartialEq, Eq)]
pub enum Lookup {
    Found(String),
    NotPresent,
    NotUnicode(String),
}

pub enum LookupView {
    Found(Seq<char>),
    NotPresent,
    NotUnicode(Seq<char>),
}

impl View for Lookup {
    type V = LookupView;

    open spec fn view(&self) -> LookupView {
        match self {
            Lookup::Found(value) => LookupView::Found(value@),
            Lookup::NotPresent => LookupView::NotPresent,
            Lookup::NotUnicode(shown) => LookupView::NotUnicode(shown@),
        }
    }
}

/// What the first variable called `name` holds.
pub open spec fn lookup(variables: Seq<VariableView>, name: Seq<char>) -> LookupView
    decreases variables.len(),
{
    if variables.len() == 0 {
        LookupView::NotPresent
    } else if variables[0].name == name {
        match variables[0].value {
            ContentView::Text(text) => LookupView::Found(text),
            ContentView::NotUnicode(shown) => LookupView::NotUnicode(shown),
        }
    } else {
        lookup(variables.drop_first(), name)
    }
}

impl Environment {
    /// An environment of the given variables.
    pub fn new(variables: Vec<Variable>) -> (r: Self)
        ensures
            r.variables == variables,
    {
        Environment { variables }
    }

    /// Looks up the variable called `name`.
    pub fn var(&self, name: &str) -> (r: Lookup)
        ensures
            r@ == lookup(self@, name@),
    {
        let mut i: usize = 0;
        assert(self@.skip(0) =~= self@);
        while i < self.variables.len()
            invariant
                i <= self.variables.len(),
                self@.len() == self.variables.len(),
                lookup(self@, name@) == lookup(self@.skip(i as int), name@),
            decreases self.variables.len() - i,
        {
            let variable = &self.variables[i];
            let ghost rest = self@.skip(i as int);
            assert(rest[0] == variable@);
            if equal(variable.name.as_str(), name) {
                return match &variable.value {
                    Content::Text(text) => Lookup::Found(text.clone()),
                    Content::NotUnicode(shown) => Lookup::NotUnicode(shown.clone()),
                };
            }
            assert(rest.drop_first() =~= self@.skip(i + 1));
            i += 1;
        }
        Lookup::NotPresent
    }
}

} // verus!
