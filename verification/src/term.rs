//! Labels and their spellings, and the ways in which a text can match one.

use vstd::prelude::*;
use crate::scan::{first_index, lemma_first_index_is};
use crate::text::{
    chars_of, has_prefix_at, normalize, normalized, part_of, same_chars, text_of, trim_chars,
    trimmed,
};

verus! {

/// A label that is looked for in a document, with the spellings under which
/// authors are known to write it. The first spelling is the canonical one.
#[derive(Clone, Copy, Debug, PartialEq, Eq, Hash)]
pub enum Term {
    Single(&'static str),
    Double { main: &'static str, alt: &'static str },
    Many { main: &'static str, other: &'static [&'static str] },
}

impl View for Term {
    type V = Seq<Seq<char>>;

    /// The spellings of the term, the canonical one first.
    open spec fn view(&self) -> Seq<Seq<char>> {
        match *self {
            Term::Single(s) => seq![s@],
            Term::Double { main, alt } => seq![main@, alt@],
            Term::Many { main, other } => seq![main@] + other@.map_values(|s: &'static str| s@),
        }
    }
}

impl DeepView for Term {
    type V = Seq<Seq<char>>;

    open spec fn deep_view(&self) -> Seq<Seq<char>> {
        self@
    }
}

/// Whether `text`, trimmed, is one of the spellings.
pub open spec fn matches_exact(spellings: Seq<Seq<char>>, text: Seq<char>) -> bool {
    exists|i: int| 0 <= i < spellings.len() && #[trigger] spellings[i] == trimmed(text)
}

/// Whether `text` and one of the spellings have the same normal form.
pub open spec fn matches_normalized(spellings: Seq<Seq<char>>, text: Seq<char>) -> bool {
    exists|i: int|
        0 <= i < spellings.len() && normalized(#[trigger] spellings[i]) == normalized(text)
}

/// Whether `text` matches exactly or, failing that, in normal form.
pub open spec fn matches_any(spellings: Seq<Seq<char>>, text: Seq<char>) -> bool {
    matches_exact(spellings, text) || matches_normalized(spellings, text)
}

/// Whether `text`, trimmed, begins with one of the spellings.
pub open spec fn begins_with(spellings: Seq<Seq<char>>, text: Seq<char>) -> bool {
    exists|i: int|
        0 <= i < spellings.len() && (#[trigger] spellings[i]).is_prefix_of(trimmed(text))
}

/// The predicate "the spelling stands at the head of `text`".
pub open spec fn prefix_of(text: Seq<char>) -> spec_fn(Seq<char>) -> bool {
    |spelling: Seq<char>| spelling.is_prefix_of(text)
}

/// `text`, trimmed, without the spelling that it begins with: the first of
/// the spellings, in their order, that stands at its head. A text that begins
/// with none of them is only trimmed.
pub open spec fn without_label(spellings: Seq<Seq<char>>, text: Seq<char>) -> Seq<char> {
    let core = trimmed(text);
    let k = first_index(spellings, prefix_of(core));
    if k < spellings.len() {
        core.skip(spellings[k].len() as int)
    } else {
        core
    }
}

/// `text` without the colon that leads it, where one does.
pub open spec fn without_leading_colon(text: Seq<char>) -> Seq<char> {
    if text.len() > 0 && text[0] == ':' {
        text.drop_first()
    } else {
        text
    }
}

/// The value that `text` holds beside its label: what is left once the
/// spelling at its head is taken away, trimmed, without one leading colon
/// where it has one, and trimmed again.
pub open spec fn stripped(spellings: Seq<Seq<char>>, text: Seq<char>) -> Seq<char> {
    trimmed(without_leading_colon(trimmed(without_label(spellings, text))))
}

impl Term {
    /// The canonical spelling.
    pub open spec fn main_text(self) -> Seq<char> {
        self@[0]
    }

    /// The spellings, the canonical one first.
    pub fn spellings(&self) -> (r: Vec<&'static str>)
        ensures
            r.deep_view() == self@,
    {
        let mut r: Vec<&'static str> = Vec::new();
        match *self {
            Term::Single(s) => {
                r.push(s);
            },
            Term::Double { main, alt } => {
                r.push(main);
                r.push(alt);
            },
            Term::Many { main, other } => {
                r.push(main);
                let mut i: usize = 0;
                while i < other.len()
                    invariant
                        i <= other.len(),
                        r@.len() == i + 1,
                        r@[0] == main,
                        forall|j: int| 1 <= j <= i ==> #[trigger] r@[j] == other@[j - 1],
                    decreases other.len() - i,
                {
                    r.push(other[i]);
                    i += 1;
                }
            },
        }
        assert(r.deep_view() =~= self@);
        r
    }

    /// The canonical spelling.
    pub fn as_main(&self) -> (r: &'static str)
        ensures
            r@ == self.main_text(),
    {
        match self {
            Term::Single(s) => s,
            Term::Double { main, .. } => main,
            Term::Many { main, .. } => main,
        }
    }

    /// The canonical spelling.
    pub fn into_main(self) -> (r: &'static str)
        ensures
            r@ == self.main_text(),
    {
        self.as_main()
    }

    /// The canonical spelling as a string of its own.
    pub fn name(&self) -> (r: String)
        ensures
            r@ == self.main_text(),
    {
        self.as_main().to_owned()
    }

    /// Whether `text` is one of the spellings, letter for letter.
    pub fn has_spelling(&self, text: &str) -> (r: bool)
        ensures
            r == self@.contains(text@),
    {
        let wanted = chars_of(text);
        let all = self.spellings();
        let mut i: usize = 0;
        while i < all.len()
            invariant
                i <= all.len(),
                all.deep_view() == self@,
                wanted@ == text@,
                forall|j: int| 0 <= j < i ==> #[trigger] self@[j] != text@,
            decreases all.len() - i,
        {
            let spelling = chars_of(all[i]);
            assert(all.deep_view()[i as int] == all@[i as int]@);
            if same_chars(&spelling, &wanted) {
                return true;
            }
            i += 1;
        }
        false
    }

    /// Whether `main_word` is the canonical spelling.
    pub fn is(&self, main_word: &str) -> (r: bool)
        ensures
            r == (self.main_text() == main_word@),
    {
        let a = chars_of(self.as_main());
        let b = chars_of(main_word);
        same_chars(&a, &b)
    }

    /// Whether `text`, trimmed, is one of the spellings.
    pub fn matches_exact(&self, text: &str) -> (r: bool)
        ensures
            r == matches_exact(self@, text@),
    {
        let wanted = trim_chars(&chars_of(text));
        let all = self.spellings();
        let mut i: usize = 0;
        while i < all.len()
            invariant
                i <= all.len(),
                all.deep_view() == self@,
                wanted@ == trimmed(text@),
                forall|j: int| 0 <= j < i ==> #[trigger] self@[j] != trimmed(text@),
            decreases all.len() - i,
        {
            let spelling = chars_of(all[i]);
            assert(all.deep_view()[i as int] == all@[i as int]@);
            if same_chars(&spelling, &wanted) {
                return true;
            }
            i += 1;
        }
        false
    }

    /// Whether `search_space` and one of the spellings have the same normal
    /// form.
    pub fn deep_matches(&self, search_space: &str) -> (r: bool)
        ensures
            r == matches_normalized(self@, search_space@),
    {
        let wanted = normalize(search_space);
        let all = self.spellings();
        let mut i: usize = 0;
        while i < all.len()
            invariant
                i <= all.len(),
                all.deep_view() == self@,
                wanted@ == normalized(search_space@),
                forall|j: int|
                    0 <= j < i ==> normalized(#[trigger] self@[j]) != normalized(search_space@),
            decreases all.len() - i,
        {
            let spelling = normalize(all[i]);
            assert(all.deep_view()[i as int] == all@[i as int]@);
            if same_chars(&spelling, &wanted) {
                return true;
            }
            i += 1;
        }
        false
    }

    /// Whether `search_space` matches the term: exactly or, failing that, in
    /// normal form.
    pub fn matches(&self, search_space: &str) -> (r: bool)
        ensures
            r == matches_any(self@, search_space@),
    {
        self.matches_exact(search_space) || self.deep_matches(search_space)
    }

    /// Whether `word`, trimmed, begins with one of the spellings.
    pub fn word_starts_with_term(&self, word: &str) -> (r: bool)
        ensures
            r == begins_with(self@, word@),
    {
        let wanted = trim_chars(&chars_of(word));
        assert(wanted@.skip(0) == wanted@);
        let all = self.spellings();
        let mut i: usize = 0;
        while i < all.len()
            invariant
                i <= all.len(),
                all.deep_view() == self@,
                wanted@ == trimmed(word@),
                wanted@.skip(0) == wanted@,
                forall|j: int| 0 <= j < i ==> !(#[trigger] self@[j]).is_prefix_of(trimmed(word@)),
            decreases all.len() - i,
        {
            let spelling = chars_of(all[i]);
            assert(all.deep_view()[i as int] == all@[i as int]@);
            if has_prefix_at(&wanted, 0, &spelling) {
                return true;
            }
            i += 1;
        }
        false
    }

    /// The length of the spelling that `core` begins with: of the first of
    /// the spellings, in their order, that stands at its head; or 0 where none
    /// does.
    fn label_length(&self, core: &Vec<char>) -> (r: usize)
        ensures
            r <= core.len(),
            r == ({
                let k = first_index(self@, prefix_of(core@));
                if k < self@.len() {
                    self@[k].len()
                } else {
                    0
                }
            }),
    {
        let all = self.spellings();
        let ghost p = prefix_of(core@);
        let mut i: usize = 0;
        assert(core@.skip(0) == core@);
        while i < all.len()
            invariant
                i <= all.len(),
                all.deep_view() == self@,
                core@.skip(0) == core@,
                p == prefix_of(core@),
                forall|j: int| 0 <= j < i ==> !p(#[trigger] self@[j]),
            decreases all.len() - i,
        {
            let spelling = chars_of(all[i]);
            assert(all.deep_view()[i as int] == all@[i as int]@);
            if has_prefix_at(core, 0, &spelling) {
                proof {
                    lemma_first_index_is(self@, p, i as int);
                }
                return spelling.len();
            }
            i += 1;
        }
        proof {
            lemma_first_index_is(self@, p, self@.len() as int);
        }
        0
    }

    /// The value that `word` holds beside the label: `word` without the
    /// spelling that it begins with, without the white space around the rest
    /// and without one leading colon.
    pub fn strip_term_from_word(&self, word: &str) -> (r: String)
        ensures
            r@ == stripped(self@, word@),
    {
        let core = trim_chars(&chars_of(word));
        let skip = self.label_length(&core);
        let rest = part_of(&core, skip, core.len());
        proof {
            assert(core@.subrange(skip as int, core@.len() as int) == core@.skip(skip as int));
            assert(core@.skip(0) == core@);
        }
        let inner = trim_chars(&rest);
        let value = if inner.len() > 0 && inner[0] == ':' {
            part_of(&inner, 1, inner.len())
        } else {
            inner
        };
        let r = trim_chars(&value);
        assert(r@.subrange(0, r@.len() as int) == r@);
        text_of(&r, 0, r.len())
    }

    /// Whether the two terms have the same spellings in the same order.
    pub fn same_as(&self, other: &Term) -> (r: bool)
        ensures
            r == (self@ == other@),
    {
        let mine = self.spellings();
        let theirs = other.spellings();
        assert(mine.deep_view().len() == mine@.len());
        assert(theirs.deep_view().len() == theirs@.len());
        if mine.len() != theirs.len() {
            return false;
        }
        let mut i: usize = 0;
        while i < mine.len()
            invariant
                i <= mine.len() == theirs.len(),
                mine.deep_view() == self@,
                theirs.deep_view() == other@,
                forall|j: int| 0 <= j < i ==> #[trigger] self@[j] == other@[j],
            decreases mine.len() - i,
        {
            let a = chars_of(mine[i]);
            let b = chars_of(theirs[i]);
            assert(mine.deep_view()[i as int] == mine@[i as int]@);
            assert(theirs.deep_view()[i as int] == theirs@[i as int]@);
            if !same_chars(&a, &b) {
                return false;
            }
            i += 1;
        }
        assert(self@ =~= other@);
        true
    }
}

/// Whether `search_space` and the single spelling `term` have the same normal
/// form.
pub fn deep_search_term(search_space: &str, term: &str) -> (r: bool)
    ensures
        r == (normalized(search_space@) == normalized(term@)),
{
    let a = normalize(search_space);
    let b = normalize(term);
    same_chars(&a, &b)
}

} // verus!
