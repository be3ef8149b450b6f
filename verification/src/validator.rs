use vstd::prelude::*;
use vstd::std_specs::iter::IteratorSpec;

verus! {

/// The substrings that no title may hold. Their order does not matter.
pub type BannedWords = Vec<String>;

/// The naming pattern of a release title, in the syntax of the `regex` crate:
/// a bracketed tag, free text, a dash, an episode number, a bracketed
/// resolution and the `.mkv` extension. The free text is any non-empty text,
/// line feeds included, so its dot carries the `s` flag.
pub const TITLE_PATTERN: &'static str = r"\[\w+\] (?s:.+) - \d+ \[\d+p\]\.mkv";

/// Whether `pattern` is a well-formed regular expression of the `regex` crate
/// that matches somewhere in `text`. The search is unanchored.
pub uninterp spec fn regex_finds(pattern: Seq<char>, text: Seq<char>) -> bool;

/// `regex::Regex::new` followed by `regex::Regex::is_match`: the answer of an
/// unanchored search for `pattern` in `text`, and `false` where `pattern` does
/// not compile. Both depend on the two strings alone.
#[verifier::external_body]
fn pattern_found(pattern: &str, text: &str) -> (found: bool)
    ensures
        found == regex_finds(pattern@, text@),
{
    match regex::Regex::new(pattern) {
        Ok(compiled) => compiled.is_match(text),
        Err(_) => false,
    }
}

/// A title follows the naming grammar when the title pattern matches anywhere in it.
pub open spec fn matches_grammar(title: Seq<char>) -> bool {
    regex_finds(TITLE_PATTERN@, title)
}

/// `needle` stands in `hay` at position `at`.
pub open spec fn occurs_at(hay: Seq<char>, needle: Seq<char>, at: int) -> bool {
    &&& 0 <= at
    &&& at + needle.len() <= hay.len()
    &&& hay.subrange(at, at + needle.len()) == needle
}

/// `needle` is a contiguous part of `hay`. The empty string is part of every string.
pub open spec fn has_substring(hay: Seq<char>, needle: Seq<char>) -> bool {
    exists|at: int| #[trigger] occurs_at(hay, needle, at)
}

/// Some banned word is a part of the title.
pub open spec fn is_banned(banned: Seq<Seq<char>>, title: Seq<char>) -> bool {
    exists|i: int| 0 <= i < banned.len() && #[trigger] has_substring(title, banned[i])
}

/// A title is valid when it follows the grammar and holds no banned word.
pub open spec fn valid_title(banned: Seq<Seq<char>>, title: Seq<char>) -> bool {
    matches_grammar(title) && !is_banned(banned, title)
}

/// The characters of a string, one by one.
pub fn chars_of(text: &str) -> (chars: Vec<char>)
    ensures
        chars@ == text@,
{
    broadcast use vstd::string::group_string_axioms;

    let mut rest = text.chars();
    let mut chars: Vec<char> = Vec::new();
    loop
        invariant
            chars@ + rest.remaining() == text@,
            rest.decrease() is Some,
        ensures
            chars@ == text@,
        decreases rest.decrease()->0,
    {
        match rest.next() {
            Some(c) => chars.push(c),
            None => break ,
        }
    }
    chars
}

fn stands_at(hay: &Vec<char>, needle: &Vec<char>, at: usize) -> (same: bool)
    requires
        at + needle.len() <= hay.len(),
    ensures
        same == occurs_at(hay@, needle@, at as int),
{
    let mut k: usize = 0;
    while k < needle.len()
        invariant
            at + needle.len() <= hay.len(),
            k <= needle.len(),
            forall|j: int| 0 <= j < k ==> hay@[at + j] == needle@[j],
        decreases needle.len() - k,
    {
        if hay[at + k] != needle[k] {
            return false;
        }
        k += 1;
    }
    assert(hay@.subrange(at as int, at + needle.len()) =~= needle@);
    true
}

/// Searches `hay` for `needle`, position by position.
pub fn contains_chars(hay: &Vec<char>, needle: &Vec<char>) -> (found: bool)
    ensures
        found == has_substring(hay@, needle@),
{
    if needle.len() > hay.len() {
        return false;
    }
    let last: usize = hay.len() - needle.len();
    let mut at: usize = 0;
    loop
        invariant
            last == hay.len() - needle.len(),
            at <= last,
            forall|p: int| 0 <= p < at ==> !occurs_at(hay@, needle@, p),
        decreases last - at,
    {
        if stands_at(hay, needle, at) {
            return true;
        }
        if at == last {
            return false;
        }
        at += 1;
    }
}

/// Tells whether the title is free of every banned word. Matching is by exact,
/// case-sensitive containment; with no banned words every title passes.
pub fn is_not_banned(banned_words: &BannedWords, title: &String) -> (clean: bool)
    ensures
        clean == !is_banned(banned_words.deep_view(), title@),
{
    let title_chars = chars_of(title.as_str());
    let mut i: usize = 0;
    while i < banned_words.len()
        invariant
            i <= banned_words.len(),
            title_chars@ == title@,
            forall|j: int| 0 <= j < i ==> !has_substring(title@, #[trigger] banned_words.deep_view()[j]),
        decreases banned_words.len() - i,
    {
        let word_chars = chars_of(banned_words[i].as_str());
        assert(banned_words.deep_view()[i as int] == banned_words@[i as int]@);
        if contains_chars(&title_chars, &word_chars) {
            return false;
        }
        i += 1;
    }
    true
}

/// Judges a title once it is known whether the naming pattern matches in it:
/// a title outside the grammar is rejected, one within it is accepted unless a
/// banned word is a part of it.
pub fn verdict(grammar_matches: bool, banned_words: &BannedWords, title: &String) -> (ok: bool)
    ensures
        ok == (grammar_matches && !is_banned(banned_words.deep_view(), title@)),
{
    grammar_matches && is_not_banned(banned_words, title)
}

/// Decides whether a title may be downloaded: the naming pattern must match
/// somewhere in it, and no banned word may be a part of it.
pub fn is_valid(banned_words: &BannedWords, title: &String) -> (ok: bool)
    ensures
        ok == valid_title(banned_words.deep_view(), title@),
{
    verdict(pattern_found(TITLE_PATTERN, title.as_str()), banned_words, title)
}

/// A title that follows the grammar and holds none of the banned words is valid.
pub proof fn lemma_clean_grammar_title_is_valid(banned: Seq<Seq<char>>, title: Seq<char>)
    requires
        matches_grammar(title),
        forall|i: int| 0 <= i < banned.len() ==> !has_substring(title, #[trigger] banned[i]),
    ensures
        valid_title(banned, title),
{
}

/// A title that holds a banned word is invalid, whether or not it follows the grammar.
pub proof fn lemma_banned_title_is_invalid(banned: Seq<Seq<char>>, title: Seq<char>, i: int)
    requires
        0 <= i < banned.len(),
        has_substring(title, banned[i]),
    ensures
        !valid_title(banned, title),
{
}

/// With no banned words, no title is banned: validity is then the grammar alone.
pub proof fn lemma_empty_ban_list_bans_nothing(title: Seq<char>)
    ensures
        !is_banned(Seq::<Seq<char>>::empty(), title),
        valid_title(Seq::<Seq<char>>::empty(), title) == matches_grammar(title),
{
}

} // verus!
