//! Keys as the windowing system reports them.
use vstd::prelude::*;
use vstd::string::*;

use crate::text::same_text;

verus! {

#[derive(Debug, Clone, Copy, PartialEq, Eq, Structural)]
pub struct Modifiers {
    pub control: bool,
    pub alt: bool,
    pub shift: bool,
    pub platform: bool,
    pub function: bool,
}

impl Modifiers {
    pub fn none() -> (modifiers: Self)
        ensures
            modifiers == (Modifiers {
                control: false,
                alt: false,
                shift: false,
                platform: false,
                function: false,
            }),
    {
        Self { control: false, alt: false, shift: false, platform: false, function: false }
    }
}

/// A pressed key: its name, and the text it types.
#[derive(Debug)]
pub struct Keystroke {
    pub modifiers: Modifiers,
    pub key: String,
    pub key_char: Option<String>,
}

/// A pressed key by its values.
#[verifier::ext_equal]
pub struct KeyView {
    pub modifiers: Modifiers,
    pub key: Seq<char>,
    pub key_char: Option<Seq<char>>,
}

impl View for Keystroke {
    type V = KeyView;

    open spec fn view(&self) -> KeyView {
        KeyView {
            modifiers: self.modifiers,
            key: self.key@,
            key_char: match self.key_char {
                Some(text) => Some(text@),
                None => None,
            },
        }
    }
}

impl Keystroke {
    /// Whether the key has a name.
    pub fn is(&self, name: &str) -> (is: bool)
        ensures
            is == (self@.key == name@),
    {
        same_text(self.key.as_str(), name)
    }
}

} // verus!
