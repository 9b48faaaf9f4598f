//! Language codes and language-tagged text.

use vstd::prelude::*;

verus! {

/// A language code, as used in the Wikibase data model.
#[derive(Debug, Clone, Hash)]
pub struct Lang(pub String);

/// Text that is in a certain language.
#[derive(Debug, Clone, Hash)]
pub struct Text {
    /// The raw text.
    pub text: String,
    /// The language of the text.
    pub lang: Lang,
}

/// The mathematical shape of a `Text`: the characters of the text and of its
/// language code.
pub ghost struct TextV {
    pub text: Seq<char>,
    pub lang: Seq<char>,
}

impl View for Lang {
    type V = Seq<char>;

    open spec fn view(&self) -> Seq<char> {
        self.0@
    }
}

impl DeepView for Lang {
    type V = Seq<char>;

    open spec fn deep_view(&self) -> Seq<char> {
        self.0@
    }
}

impl View for Text {
    type V = TextV;

    open spec fn view(&self) -> TextV {
        TextV { text: self.text@, lang: self.lang@ }
    }
}

impl DeepView for Text {
    type V = TextV;

    open spec fn deep_view(&self) -> TextV {
        self@
    }
}

impl PartialEq for Lang {
    fn eq(&self, other: &Self) -> (r: bool) {
        self.0 == other.0
    }
}

impl vstd::std_specs::cmp::PartialEqSpecImpl for Lang {
    open spec fn obeys_eq_spec() -> bool {
        true
    }

    open spec fn eq_spec(&self, other: &Self) -> bool {
        self@ == other@
    }
}

impl PartialEq for Text {
    fn eq(&self, other: &Self) -> (r: bool) {
        self.text == other.text && self.lang == other.lang
    }
}

impl vstd::std_specs::cmp::PartialEqSpecImpl for Text {
    open spec fn obeys_eq_spec() -> bool {
        true
    }

    open spec fn eq_spec(&self, other: &Self) -> bool {
        self@ == other@
    }
}

} // verus!
