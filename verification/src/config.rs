use crate::validator::{chars_of, BannedWords};
use vstd::prelude::*;
use vstd::string::StringExecFns;

verus! {

/// Why the address of the listing page cannot be used.
#[derive(Clone, Copy, Debug, PartialEq, Eq, Structural)]
pub enum ConfigError {
    /// No address was given.
    MissingUrl,
    /// The address is no absolute URL.
    MalformedUrl,
    /// The address names no host.
    NoHost,
}

impl ConfigError {
    /// The words in which the error is reported.
    pub fn message(&self) -> (text: String)
        ensures
            text@ == match *self {
                ConfigError::MissingUrl => "SCRAPER_URL was not set"@,
                ConfigError::MalformedUrl => "SCRAPER_URL did not parse correctly"@,
                ConfigError::NoHost => "SCRAPER_URL did not have proper host url segment (???)"@,
            },
    {
        match self {
            ConfigError::MissingUrl => String::from_str("SCRAPER_URL was not set"),
            ConfigError::MalformedUrl => String::from_str("SCRAPER_URL did not parse correctly"),
            ConfigError::NoHost => String::from_str(
                "SCRAPER_URL did not have proper host url segment (???)",
            ),
        }
    }
}

/// What the `url` crate reads of `text`: nothing where `text` is no absolute
/// URL, else the host that the URL names, if it names one.
pub uninterp spec fn url_host(text: Seq<char>) -> Option<Option<Seq<char>>>;

/// `reqwest::Url::parse` followed by `Url::host_str`: `None` where parsing
/// fails, else the host as text, or `None` inside where the URL has no host.
/// Both depend on the text alone.
#[verifier::external_body]
fn read_host(text: &str) -> (host: Option<Option<String>>)
    ensures
        host.deep_view() == url_host(text@),
{
    match reqwest::Url::parse(text) {
        Ok(parsed) => Some(parsed.host_str().map(String::from)),
        Err(_) => None,
    }
}

/// The host of the listing page for a setting of its address, or the reason
/// why there is none.
pub open spec fn host_of(setting: Option<Seq<char>>) -> Result<Seq<char>, ConfigError> {
    match setting {
        None => Err(ConfigError::MissingUrl),
        Some(text) => match url_host(text) {
            None => Err(ConfigError::MalformedUrl),
            Some(None) => Err(ConfigError::NoHost),
            Some(Some(host)) => Ok(host),
        },
    }
}

/// The mathematical value of a host or of the reason why there is none.
pub open spec fn host_view(host: Result<String, ConfigError>) -> Result<Seq<char>, ConfigError> {
    match host {
        Ok(name) => Ok(name@),
        Err(reason) => Err(reason),
    }
}

/// Judges a parsed address: a host is passed on, a missing host and a failed
/// parse are told apart.
pub fn host_from(parsed: Option<Option<String>>) -> (host: Result<String, ConfigError>)
    ensures
        host_view(host) == match parsed.deep_view() {
            None => Err::<Seq<char>, ConfigError>(ConfigError::MalformedUrl),
            Some(None) => Err(ConfigError::NoHost),
            Some(Some(name)) => Ok(name),
        },
{
    match parsed {
        None => Err(ConfigError::MalformedUrl),
        Some(None) => Err(ConfigError::NoHost),
        Some(Some(name)) => Ok(name),
    }
}

/// Reads the host of the listing page from the setting of its address. The
/// address must be given, be an absolute URL and name a host.
pub fn scraper_host(setting: Option<&str>) -> (host: Result<String, ConfigError>)
    ensures
        host_view(host) == host_of(setting.deep_view()),
{
    match setting {
        None => Err(ConfigError::MissingUrl),
        Some(text) => host_from(read_host(text)),
    }
}

/// The words put one after the other, with a comma between neighbours.
pub open spec fn comma_joined(words: Seq<Seq<char>>) -> Seq<char>
    decreases words.len(),
{
    if words.len() == 0 {
        Seq::empty()
    } else if words.len() == 1 {
        words[0]
    } else {
        comma_joined(words.drop_last()) + seq![','] + words.last()
    }
}

/// No character of the word is a comma.
pub open spec fn comma_free(word: Seq<char>) -> bool {
    forall|k: int| 0 <= k < word.len() ==> word[k] != ','
}

/// Joining after one more word: the word itself where it is the first, else
/// what was joined before, a comma and the word.
pub proof fn lemma_comma_joined_push(words: Seq<Seq<char>>, word: Seq<char>)
    ensures
        comma_joined(words.push(word)) == if words.len() == 0 {
            word
        } else {
            comma_joined(words) + seq![','] + word
        },
{
    assert(words.push(word).drop_last() =~= words);
}

/// A text is cut into comma-free words in one way only: two lists of such
/// words, neither of them empty, that join to the same text are the same list.
pub proof fn lemma_comma_split_is_unique(first: Seq<Seq<char>>, second: Seq<Seq<char>>)
    requires
        first.len() >= 1,
        second.len() >= 1,
        forall|i: int| 0 <= i < first.len() ==> comma_free(#[trigger] first[i]),
        forall|i: int| 0 <= i < second.len() ==> comma_free(#[trigger] second[i]),
        comma_joined(first) == comma_joined(second),
    ensures
        first == second,
    decreases first.len(),
{
    let text = comma_joined(first);
    let first_last = first.last();
    let second_last = second.last();
    if first.len() == 1 || second.len() == 1 {
        if first.len() > 1 {
            let at = comma_joined(first.drop_last()).len() as int;
            assert(second[0][at] == ',');
        }
        if second.len() > 1 {
            let at = comma_joined(second.drop_last()).len() as int;
            assert(first[0][at] == ',');
        }
    } else {
        let first_rest = first.drop_last();
        let second_rest = second.drop_last();
        let p = comma_joined(first_rest).len() as int;
        let q = comma_joined(second_rest).len() as int;
        assert(text == comma_joined(second_rest) + seq![','] + second_last);
        if p < q {
            assert(first_last[q - p - 1] == text[q]);
        }
        if q < p {
            assert(second_last[p - q - 1] == text[p]);
        }
        assert(comma_joined(first_rest) =~= text.take(p));
        assert(comma_joined(second_rest) =~= text.take(q));
        assert(first_last =~= text.skip(p + 1));
        assert(second_last =~= text.skip(q + 1));
        lemma_comma_split_is_unique(first_rest, second_rest);
        assert(second =~= second_rest.push(second_last));
    }
}

/// Reads the list of banned words from its setting. Without a setting there
/// are none. A setting is cut at each comma, so that it gives one word more
/// than it has commas; the words are kept as they stand, empty ones too.
pub fn parse_banned_words(setting: Option<&str>) -> (words: BannedWords)
    ensures
        setting is None ==> words.deep_view() == Seq::<Seq<char>>::empty(),
        setting matches Some(text) ==> {
            &&& words.len() >= 1
            &&& comma_joined(words.deep_view()) == text@
            &&& forall|i: int| 0 <= i < words.len() ==> comma_free(#[trigger] words.deep_view()[i])
        },
{
    let mut words: Vec<String> = Vec::new();
    let text = match setting {
        Some(text) => text,
        None => return words,
    };
    let chars = chars_of(text);
    let mut start: usize = 0;
    let mut i: usize = 0;
    proof {
        lemma_comma_joined_push(words.deep_view(), text@.subrange(0, 0));
    }
    while i < chars.len()
        invariant
            chars@ == text@,
            start <= i <= chars.len(),
            forall|k: int| start <= k < i ==> chars@[k] != ',',
            forall|w: int| 0 <= w < words.len() ==> comma_free(#[trigger] words.deep_view()[w]),
            comma_joined(words.deep_view().push(text@.subrange(start as int, i as int)))
                == text@.take(i as int),
        decreases chars.len() - i,
    {
        let ghost before = words.deep_view();
        let ghost current = text@.subrange(start as int, i as int);
        proof {
            lemma_comma_joined_push(before, current);
        }
        if chars[i] == ',' {
            words.push(String::from_str(text.substring_char(start, i)));
            start = i + 1;
            proof {
                let empty = text@.subrange(start as int, start as int);
                assert(words.deep_view() =~= before.push(current));
                lemma_comma_joined_push(words.deep_view(), empty);
                assert(comma_joined(words.deep_view()) + seq![','] + empty =~= text@.take(
                    i as int,
                ).push(','));
            }
        } else {
            proof {
                let longer = text@.subrange(start as int, i + 1);
                lemma_comma_joined_push(before, longer);
                if before.len() > 0 {
                    assert(comma_joined(before) + seq![','] + longer =~= (comma_joined(before)
                        + seq![','] + current).push(text@[i as int]));
                }
            }
        }
        i += 1;
    }
    let ghost before = words.deep_view();
    words.push(String::from_str(text.substring_char(start, i)));
    proof {
        assert(words.deep_view() =~= before.push(text@.subrange(start as int, i as int)));
    }
    words
}

} // verus!
