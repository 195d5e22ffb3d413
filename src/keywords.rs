use vstd::prelude::*;

use crate::token::{is_keyword_kind, TokenKind};

verus! {

/// The kind of the first entry of `entries` spelled `word`.
pub open spec fn lookup_entry(entries: Seq<(Seq<char>, TokenKind)>, word: Seq<char>) -> Option<
    TokenKind,
>
    decreases entries.len(),
{
    if entries.len() == 0 {
        None
    } else if entries[0].0 == word {
        Some(entries[0].1)
    } else {
        lookup_entry(entries.drop_first(), word)
    }
}

/// The reserved words of the language and their kinds.
pub open spec fn keyword_entries() -> Seq<(Seq<char>, TokenKind)> {
    seq![
        ("var"@, TokenKind::Var),
        ("fn"@, TokenKind::Fn),
        ("return"@, TokenKind::Return),
        ("let"@, TokenKind::Let),
        ("else"@, TokenKind::Else),
        ("loop"@, TokenKind::Loop),
        ("if"@, TokenKind::If),
        ("import"@, TokenKind::Import),
        ("false"@, TokenKind::False),
        ("true"@, TokenKind::True),
        ("for"@, TokenKind::For),
        ("print"@, TokenKind::Print),
        ("while"@, TokenKind::While),
        ("struct"@, TokenKind::Struct),
        ("internal"@, TokenKind::Internal),
        ("enum"@, TokenKind::Enum),
        ("and"@, TokenKind::And),
        ("or"@, TokenKind::Or),
        ("nil"@, TokenKind::Nil),
        ("break"@, TokenKind::Break),
        ("continue"@, TokenKind::Continue),
        ("impl"@, TokenKind::Impl),
        ("init"@, TokenKind::Init),
        ("switch"@, TokenKind::Switch),
        ("fall"@, TokenKind::Fall),
        ("defer"@, TokenKind::Defer),
    ]
}

/// The keyword kind of `word`, or `None` for an ordinary identifier.
pub open spec fn keyword_kind(word: Seq<char>) -> Option<TokenKind> {
    lookup_entry(keyword_entries(), word)
}

/// A kind found in `entries` is the kind of one of its entries.
pub proof fn lemma_lookup_entry(entries: Seq<(Seq<char>, TokenKind)>, word: Seq<char>)
    ensures
        lookup_entry(entries, word) matches Some(k) ==> exists|i: int|
            0 <= i < entries.len() && #[trigger] entries[i] == (word, k),
    decreases entries.len(),
{
    if entries.len() > 0 && entries[0].0 != word {
        lemma_lookup_entry(entries.drop_first(), word);
        if let Some(k) = lookup_entry(entries, word) {
            let i = choose|i: int|
                0 <= i < entries.drop_first().len() && #[trigger] entries.drop_first()[i] == (
                    word,
                    k,
                );
            assert(entries[i + 1] == (word, k));
        }
    }
}

/// Every kind that the keyword table gives is a reserved-word kind.
pub proof fn lemma_keyword_kinds(word: Seq<char>)
    ensures
        keyword_kind(word) matches Some(k) ==> is_keyword_kind(k),
{
    lemma_lookup_entry(keyword_entries(), word);
    assert forall|i: int| 0 <= i < keyword_entries().len() implies is_keyword_kind(
        #[trigger] keyword_entries()[i].1,
    ) by {}
}

/// A fixed table from reserved spellings to their kinds; it is never
/// changed once built.
///
/// The entries are a list of (spelling, kind) pairs searched in order
/// rather than a `HashMap`: lookups here are proved to give exactly
/// `keyword_kind`, and for a map keyed by `String` Verus's specification
/// of `HashMap` does not support that proof.
pub struct KeywordTable {
    entries: Vec<(String, TokenKind)>,
}

impl View for KeywordTable {
    type V = Seq<(Seq<char>, TokenKind)>;

    closed spec fn view(&self) -> Seq<(Seq<char>, TokenKind)> {
        self.entries@.map_values(|e: (String, TokenKind)| (e.0@, e.1))
    }
}

impl KeywordTable {
    /// The language's keyword table.
    pub fn new() -> (r: Self)
        ensures
            r@ == keyword_entries(),
    {
        let mut entries: Vec<(String, TokenKind)> = Vec::new();
        entries.push((String::from_str("var"), TokenKind::Var));
        entries.push((String::from_str("fn"), TokenKind::Fn));
        entries.push((String::from_str("return"), TokenKind::Return));
        entries.push((String::from_str("let"), TokenKind::Let));
        entries.push((String::from_str("else"), TokenKind::Else));
        entries.push((String::from_str("loop"), TokenKind::Loop));
        entries.push((String::from_str("if"), TokenKind::If));
        entries.push((String::from_str("import"), TokenKind::Import));
        entries.push((String::from_str("false"), TokenKind::False));
        entries.push((String::from_str("true"), TokenKind::True));
        entries.push((String::from_str("for"), TokenKind::For));
        entries.push((String::from_str("print"), TokenKind::Print));
        entries.push((String::from_str("while"), TokenKind::While));
        entries.push((String::from_str("struct"), TokenKind::Struct));
        entries.push((String::from_str("internal"), TokenKind::Internal));
        entries.push((String::from_str("enum"), TokenKind::Enum));
        entries.push((String::from_str("and"), TokenKind::And));
        entries.push((String::from_str("or"), TokenKind::Or));
        entries.push((String::from_str("nil"), TokenKind::Nil));
        entries.push((String::from_str("break"), TokenKind::Break));
        entries.push((String::from_str("continue"), TokenKind::Continue));
        entries.push((String::from_str("impl"), TokenKind::Impl));
        entries.push((String::from_str("init"), TokenKind::Init));
        entries.push((String::from_str("switch"), TokenKind::Switch));
        entries.push((String::from_str("fall"), TokenKind::Fall));
        entries.push((String::from_str("defer"), TokenKind::Defer));
        let r = KeywordTable { entries };
        assert(r@ =~= keyword_entries());
        r
    }

    /// The kind that the table gives `word`, if any.
    pub fn get(&self, word: &String) -> (r: Option<TokenKind>)
        ensures
            r == lookup_entry(self@, word@),
    {
        let mut i: usize = 0;
        assert(self@.skip(0) =~= self@);
        while i < self.entries.len()
            invariant
                i <= self.entries@.len(),
                lookup_entry(self@, word@) == lookup_entry(self@.skip(i as int), word@),
            decreases self.entries@.len() - i,
        {
            let ghost rest = self@.skip(i as int);
            assert(rest[0] == (self.entries@[i as int].0@, self.entries@[i as int].1));
            if self.entries[i].0 == *word {
                return Some(self.entries[i].1);
            }
            assert(rest.drop_first() =~= self@.skip(i + 1));
            i = i + 1;
        }
        None
    }
}

} // verus!
