//! The highlighters that blocks of code share, one for each language.
use crate::node::code_block::{is_outdated, outdated, CodeBlock, InputEdit};
use crate::node::marks::opt_text;
use crate::node::refs::{RefValue, Refs};
use crate::strings::str_eq;
use vstd::prelude::*;

verus! {

/// What is known of a highlighter: the name of the language it was made for,
/// and the text that it was told of last.
#[derive(Debug)]
pub struct Held {
    language: String,
    text: String,
}

pub struct HeldView {
    pub language: Seq<char>,
    pub text: Seq<char>,
}

impl View for Held {
    type V = HeldView;

    closed spec fn view(&self) -> HeldView {
        HeldView { language: self.language@, text: self.text@ }
    }
}

impl RefValue for Held {
    fn copy(&self) -> (c: Self) {
        Held { language: self.language.as_str().to_owned(), text: self.text.as_str().to_owned() }
    }

    fn same(&self, other: &Self) -> (r: bool) {
        str_eq(self.language.as_str(), other.language.as_str()) && str_eq(
            self.text.as_str(),
            other.text.as_str(),
        )
    }
}

/// The highlighters that were made, by the language that code names.
#[derive(Debug)]
pub struct Highlighters {
    held: Refs<Held>,
}

impl View for Highlighters {
    type V = Map<Seq<char>, HeldView>;

    closed spec fn view(&self) -> Map<Seq<char>, HeldView> {
        self.held@
    }
}

/// Whether a highlighter has to be made before code of the language `lang`,
/// which is registered under the name `registered`, can be highlighted: there
/// is none, or it was made before the language was registered.
pub open spec fn wants_highlighter(
    held: Map<Seq<char>, HeldView>,
    lang: Seq<char>,
    registered: Option<Seq<char>>,
) -> bool {
    !held.contains_key(lang) || outdated(held[lang].language, registered)
}

impl Highlighters {
    pub fn new() -> (highlighters: Highlighters)
        ensures
            highlighters@ == Map::<Seq<char>, HeldView>::empty(),
    {
        Highlighters { held: Refs::new() }
    }

    /// The name of the language that the highlighter for `lang` was made for.
    pub fn language(&self, lang: &str) -> (language: Option<String>)
        ensures
            match language {
                Some(name) => self@.contains_key(lang@) && name@ == self@[lang@].language,
                None => !self@.contains_key(lang@),
            },
    {
        match self.held.get(lang) {
            Some(held) => Some(held.language.as_str().to_owned()),
            None => None,
        }
    }

    /// Whether a highlighter for `lang` has to be made.
    pub fn wants(&self, lang: &str, registered: &Option<String>) -> (r: bool)
        ensures
            r == wants_highlighter(self@, lang@, opt_text(*registered)),
    {
        match self.held.get(lang) {
            Some(held) => is_outdated(held.language.as_str(), registered),
            None => true,
        }
    }

    /// Takes note of a highlighter for `lang` that was made anew: it goes by
    /// the name `language`, and was told of no text yet.
    pub fn made(&mut self, lang: &str, language: &str)
        ensures
            final(self)@ == old(self)@.insert(
                lang@,
                HeldView { language: language@, text: Seq::empty() },
            ),
    {
        let text = String::new();
        assert(text@ =~= Seq::<char>::empty());
        self.held.insert(lang.to_owned(), Held { language: language.to_owned(), text });
    }

    /// What the highlighter for the language of `block` is to be told, so that
    /// it holds the code of the block; nothing where there is none.
    pub fn tell(&mut self, block: &CodeBlock) -> (edit: Option<InputEdit>)
        ensures
            match edit {
                Some(e) => match block@.lang {
                    Some(lang) => {
                        &&& old(self)@.contains_key(lang)
                        &&& e.replaces_all(old(self)@[lang].text, block@.code)
                        &&& final(self)@ == old(self)@.insert(
                            lang,
                            HeldView { text: block@.code, ..old(self)@[lang] },
                        )
                    },
                    None => false,
                },
                None => {
                    &&& final(self)@ == old(self)@
                    &&& block@.lang matches Some(lang) ==> !old(self)@.contains_key(lang)
                },
            },
    {
        match block.lang() {
            Some(lang) => {
                let (edit, language) = match self.held.get(lang.as_str()) {
                    Some(held) => (
                        block.highlight_edit(held.text.as_str()),
                        held.language.as_str().to_owned(),
                    ),
                    None => {
                        return None;
                    },
                };
                self.held.insert(lang, Held { language, text: block.code() });
                Some(edit)
            },
            None => None,
        }
    }
}

/// A highlighter that was made for the registered language is wanted no
/// more, however often code is highlighted by it.
pub proof fn law_made_once(
    held: Map<Seq<char>, HeldView>,
    lang: Seq<char>,
    name: Seq<char>,
    code: Seq<char>,
)
    ensures
        ({
            let made = held.insert(lang, HeldView { language: name, text: Seq::empty() });
            let told = made.insert(lang, HeldView { text: code, ..made[lang] });
            &&& !wants_highlighter(made, lang, Some(name))
            &&& !wants_highlighter(told, lang, Some(name))
        }),
{
}

} // verus!
