//! Telling literal secrets from references to secrets.

use crate::text;
use vstd::prelude::*;

verus! {

/// The shortest token after `bearer` that counts as a secret, in bytes.
pub const MIN_BEARER_BYTES: usize = 16;

/// The shortest token with a known prefix that counts as a secret, in bytes.
pub const MIN_TOKEN_BYTES: usize = 20;

/// The position of the first word that is `bearer`, or their number.
pub open spec fn bearer_position(words: Seq<Seq<char>>, from: int) -> int
    decreases words.len() - from,
{
    if from >= words.len() {
        words.len() as int
    } else if words[from] == "bearer"@ {
        from
    } else {
        bearer_position(words, from + 1)
    }
}

/// Whether the word after the first `bearer` is long enough for a token.
pub open spec fn has_bearer_token(words: Seq<Seq<char>>) -> bool {
    let at = bearer_position(words, 0) + 1;
    at < words.len() && text::utf8_len(words[at]) >= MIN_BEARER_BYTES
}

/// Whether a word looks like a token of a well-known service.
pub open spec fn is_known_token(word: Seq<char>) -> bool {
    (text::starts_with(word, "sk-"@) || text::starts_with(word, "ghp_"@) || text::starts_with(
        word,
        "xoxb-"@,
    )) && text::utf8_len(word) >= MIN_TOKEN_BYTES
}

pub open spec fn is_quote_or_space(c: char) -> bool {
    c == '"' || c == '\'' || c == '`' || c == ' '
}

/// A text without the quotes and spaces that it starts with.
pub open spec fn without_quotes(s: Seq<char>) -> Seq<char>
    decreases s.len(),
{
    if s.len() > 0 && is_quote_or_space(s[0]) {
        without_quotes(s.subrange(1, s.len() as int))
    } else {
        s
    }
}

/// Whether the first occurrence of a key is followed by a value, quoted or not.
pub open spec fn assigns(s: Seq<char>, key: Seq<char>) -> bool {
    match text::first_occurrence(s, key, 0) {
        Some(at) => {
            let value = without_quotes(s.subrange(at + key.len(), s.len() as int));
            value.len() > 0 && value[0] != '&' && value[0] != '#'
        },
        None => false,
    }
}

/// Whether a text gives a value to a key that names a secret.
pub open spec fn assigns_secret(s: Seq<char>) -> bool {
    ||| assigns(s, "api_key="@)
    ||| assigns(s, "api_key:"@)
    ||| assigns(s, "apikey="@)
    ||| assigns(s, "apikey:"@)
    ||| assigns(s, "password="@)
    ||| assigns(s, "password:"@)
    ||| assigns(s, "token="@)
    ||| assigns(s, "token:"@)
    ||| assigns(s, "secret="@)
    ||| assigns(s, "secret:"@)
    ||| assigns(s, "credential="@)
    ||| assigns(s, "credential:"@)
}

/// Whether there is an `@` before the first slash.
pub open spec fn starts_with_user(s: Seq<char>) -> bool {
    exists|j: int|
        0 <= j < s.len() && (#[trigger] s[j]) == '@' && forall|k: int|
            0 <= k < j ==> (#[trigger] s[k]) != '/'
}

/// Whether a URL in a text names a user in its authority. The double slashes
/// are found from the left and do not overlap.
pub open spec fn names_user(s: Seq<char>) -> bool
    decreases s.len(),
{
    match text::first_occurrence(s, seq!['/', '/'], 0) {
        Some(at) => {
            let rest = s.subrange(at + 2, s.len() as int);
            if 0 <= at && at + 2 <= s.len() {
                starts_with_user(rest) || names_user(rest)
            } else {
                false
            }
        },
        None => false,
    }
}

/// Whether a key of a query stands after position `i`.
pub open spec fn query_key_after(s: Seq<char>, i: int, key: Seq<char>) -> bool {
    &&& text::occurs_at(s, key, i + 1)
    &&& {
        let end = i + 1 + key.len();
        end == s.len() || s[end] == '?' || s[end] == '&' || s[end] == '='
    }
}

/// Whether a key that names a secret stands in a query after position `i`.
pub open spec fn secret_query_after(s: Seq<char>, i: int) -> bool {
    &&& s[i] == '?' || s[i] == '&'
    &&& {
        ||| query_key_after(s, i, "token"@)
        ||| query_key_after(s, i, "secret"@)
        ||| query_key_after(s, i, "password"@)
        ||| query_key_after(s, i, "credential"@)
        ||| query_key_after(s, i, "api_key"@)
        ||| query_key_after(s, i, "apikey"@)
    }
}

/// Whether a text has a query with a key that names a secret.
pub open spec fn queries_secret(s: Seq<char>) -> bool {
    exists|i: int| 0 <= i < s.len() && #[trigger] secret_query_after(s, i)
}

/// Whether a text looks as if it held a secret.
pub open spec fn secret_like(value: Seq<char>) -> bool {
    let lower = text::ascii_lowered(value);
    let words = text::words(lower);
    ||| has_bearer_token(words)
    ||| exists|i: int| 0 <= i < words.len() && is_known_token(#[trigger] words[i])
    ||| assigns_secret(lower)
    ||| names_user(lower)
    ||| queries_secret(lower)
}

fn find_bearer(words: &Vec<String>) -> (r: usize)
    ensures
        r == bearer_position(text::texts(words@), 0),
        r <= words.len(),
{
    let ghost all = text::texts(words@);
    let mut i: usize = 0;
    while i < words.len()
        invariant
            i <= words.len(),
            all == text::texts(words@),
            bearer_position(all, 0) == bearer_position(all, i as int),
        decreases words.len() - i,
    {
        assert(all[i as int] == words@[i as int]@);
        if text::same_text(words[i].as_str(), "bearer") {
            return i;
        }
        i += 1;
    }
    i
}

fn known_token(word: &str) -> (r: bool)
    ensures
        r == is_known_token(word@),
{
    (text::str_starts_with(word, "sk-") || text::str_starts_with(word, "ghp_")
        || text::str_starts_with(word, "xoxb-")) && text::byte_len(word) >= MIN_TOKEN_BYTES
}

fn words_hold_token(words: &Vec<String>) -> (r: bool)
    ensures
        r == ({
            let all = text::texts(words@);
            has_bearer_token(all) || exists|i: int|
                0 <= i < all.len() && is_known_token(#[trigger] all[i])
        }),
{
    let ghost all = text::texts(words@);
    let bearer: usize = find_bearer(words);
    if bearer < words.len() && bearer + 1 < words.len() {
        assert(all[bearer + 1] == words@[bearer + 1]@);
        if text::byte_len(words[bearer + 1].as_str()) >= MIN_BEARER_BYTES {
            return true;
        }
    }
    let mut i: usize = 0;
    while i < words.len()
        invariant
            i <= words.len(),
            all == text::texts(words@),
            !has_bearer_token(all),
            forall|j: int| 0 <= j < i ==> !is_known_token(#[trigger] all[j]),
        decreases words.len() - i,
    {
        assert(all[i as int] == words@[i as int]@);
        if known_token(words[i].as_str()) {
            return true;
        }
        i += 1;
    }
    false
}

fn gives_value(s: &Vec<char>, key: &str) -> (r: bool)
    ensures
        r == assigns(s@, key@),
{
    let needle = text::chars_of(key);
    let start: usize = match text::find_text(s, &needle, 0) {
        Some(at) => at + needle.len(),
        None => {
            return false;
        },
    };
    let ghost tail = s@.subrange(start as int, s@.len() as int);
    let mut i: usize = start;
    assert(s@.subrange(i as int, s@.len() as int) =~= tail);
    while i < s.len() && (s[i] == '"' || s[i] == '\'' || s[i] == '`' || s[i] == ' ')
        invariant
            start <= i <= s.len(),
            tail == s@.subrange(start as int, s@.len() as int),
            without_quotes(tail) == without_quotes(s@.subrange(i as int, s@.len() as int)),
        decreases s.len() - i,
    {
        assert(s@.subrange(i as int, s@.len() as int).subrange(1, s@.len() - i)
            =~= s@.subrange(i + 1, s@.len() as int));
        i += 1;
    }
    assert(i < s.len() ==> s@.subrange(i as int, s@.len() as int)[0] == s@[i as int]);
    i < s.len() && s[i] != '&' && s[i] != '#'
}

fn gives_secret_value(s: &Vec<char>) -> (r: bool)
    ensures
        r == assigns_secret(s@),
{
    gives_value(s, "api_key=") || gives_value(s, "api_key:") || gives_value(s, "apikey=")
        || gives_value(s, "apikey:") || gives_value(s, "password=") || gives_value(
        s,
        "password:",
    ) || gives_value(s, "token=") || gives_value(s, "token:") || gives_value(s, "secret=")
        || gives_value(s, "secret:") || gives_value(s, "credential=") || gives_value(
        s,
        "credential:",
    )
}

fn user_before_slash(s: &Vec<char>, from: usize) -> (r: bool)
    requires
        from <= s.len(),
    ensures
        r == starts_with_user(s@.subrange(from as int, s@.len() as int)),
{
    let ghost rest = s@.subrange(from as int, s@.len() as int);
    let mut i: usize = from;
    while i < s.len()
        invariant
            from <= i <= s.len(),
            rest == s@.subrange(from as int, s@.len() as int),
            forall|k: int| 0 <= k < i - from ==> (#[trigger] rest[k]) != '/' && rest[k] != '@',
        decreases s.len() - i,
    {
        assert(rest[i - from] == s@[i as int]);
        if s[i] == '@' {
            return true;
        }
        if s[i] == '/' {
            return false;
        }
        i += 1;
    }
    false
}

/// The first occurrence in the rest of a text is the first one from there on.
proof fn lemma_occurrence_in_rest(s: Seq<char>, needle: Seq<char>, start: int, from: int)
    requires
        0 <= start,
        0 <= from,
        start + from <= s.len(),
    ensures
        match text::first_occurrence(s.subrange(start, s.len() as int), needle, from) {
            Some(at) => text::first_occurrence(s, needle, start + from) == Some(start + at),
            None => text::first_occurrence(s, needle, start + from) is None,
        },
    decreases s.len() - start - from,
{
    let rest = s.subrange(start, s.len() as int);
    if from + needle.len() <= rest.len() {
        assert(rest.subrange(from, from + needle.len()) =~= s.subrange(
            start + from,
            start + from + needle.len(),
        ));
        if !text::occurs_at(rest, needle, from) {
            if from + start < s.len() {
                lemma_occurrence_in_rest(s, needle, start, from + 1);
            }
        }
    }
}

fn url_names_user(s: &Vec<char>) -> (r: bool)
    ensures
        r == names_user(s@),
{
    let mut slashes: Vec<char> = Vec::new();
    slashes.push('/');
    slashes.push('/');
    assert(slashes@ =~= seq!['/', '/']);
    let mut start: usize = 0;
    assert(s@.subrange(0, s@.len() as int) =~= s@);
    loop
        invariant
            start <= s.len(),
            slashes@ == seq!['/', '/'],
            slashes.len() == 2,
            names_user(s@) == names_user(s@.subrange(start as int, s@.len() as int)),
        decreases s.len() - start,
    {
        let ghost rest = s@.subrange(start as int, s@.len() as int);
        proof {
            lemma_occurrence_in_rest(s@, seq!['/', '/'], start as int, 0);
        }
        match text::find_text(s, &slashes, start) {
            Some(at) => {
                assert(rest.subrange(at - start + 2, rest.len() as int) =~= s@.subrange(
                    at + 2,
                    s@.len() as int,
                ));
                if user_before_slash(s, at + 2) {
                    return true;
                }
                start = at + 2;
            },
            None => {
                return false;
            },
        }
    }
}

fn query_key(s: &Vec<char>, i: usize, key: &str) -> (r: bool)
    requires
        i < s.len(),
    ensures
        r == query_key_after(s@, i as int, key@),
{
    let needle = text::chars_of(key);
    if !text::matches_at(s, &needle, i + 1) {
        return false;
    }
    let end: usize = i + 1 + needle.len();
    end == s.len() || s[end] == '?' || s[end] == '&' || s[end] == '='
}

fn has_secret_query(s: &Vec<char>) -> (r: bool)
    ensures
        r == queries_secret(s@),
{
    let mut i: usize = 0;
    while i < s.len()
        invariant
            i <= s.len(),
            forall|j: int| 0 <= j < i ==> !#[trigger] secret_query_after(s@, j),
        decreases s.len() - i,
    {
        if (s[i] == '?' || s[i] == '&') && (query_key(s, i, "token") || query_key(s, i, "secret")
            || query_key(s, i, "password") || query_key(s, i, "credential") || query_key(
            s,
            i,
            "api_key",
        ) || query_key(s, i, "apikey")) {
            assert(secret_query_after(s@, i as int));
            return true;
        }
        i += 1;
    }
    false
}

/// Whether a text looks as if it held a secret.
pub fn literal_secret_like(value: &str) -> (r: bool)
    ensures
        r == secret_like(value@),
{
    let lower = text::ascii_lowercase(value);
    let chars = text::chars_of(lower.as_str());
    let words = text::split_words(&chars);
    words_hold_token(&words) || gives_secret_value(&chars) || url_names_user(&chars)
        || has_secret_query(&chars)
}

// ---------------------------------------------------------------------------
// References.

/// Whether a text can be the name of an environment variable.
pub open spec fn env_var_name(s: Seq<char>) -> bool {
    &&& s.len() > 0
    &&& !('0' <= s[0] <= '9')
    &&& forall|i: int| 0 <= i < s.len() ==> (#[trigger] s[i]) == '_' || text::is_ascii_alnum(s[i])
}

pub fn is_env_var_name(value: &str) -> (r: bool)
    ensures
        r == env_var_name(value@),
{
    let chars = text::chars_of(value);
    if chars.len() == 0 || ('0' <= chars[0] && chars[0] <= '9') {
        return false;
    }
    let mut i: usize = 0;
    while i < chars.len()
        invariant
            i <= chars.len(),
            chars@ == value@,
            forall|j: int|
                0 <= j < i ==> (#[trigger] value@[j]) == '_' || text::is_ascii_alnum(value@[j]),
        decreases chars.len() - i,
    {
        let c = chars[i];
        if c != '_' && !text::ascii_alnum(c) {
            assert(value@[i as int] == c);
            return false;
        }
        i += 1;
    }
    true
}

/// A text between a prefix and a suffix that do not overlap.
pub open spec fn between(s: Seq<char>, prefix: Seq<char>, suffix: Seq<char>) -> Option<Seq<char>> {
    if text::starts_with(s, prefix) && text::ends_with(
        s.subrange(prefix.len() as int, s.len() as int),
        suffix,
    ) {
        Some(s.subrange(prefix.len() as int, s.len() - suffix.len()))
    } else {
        None
    }
}

/// The text after a prefix.
pub open spec fn after(s: Seq<char>, prefix: Seq<char>) -> Option<Seq<char>> {
    if text::starts_with(s, prefix) {
        Some(s.subrange(prefix.len() as int, s.len() as int))
    } else {
        None
    }
}

fn text_between(s: &str, prefix: &str, suffix: &str) -> (r: Option<String>)
    ensures
        text::text_opt(r) == between(s@, prefix@, suffix@),
{
    match text_after(s, prefix) {
        None => None,
        Some(rest) => if text::str_ends_with(rest.as_str(), suffix) {
            let chars = text::chars_of(rest.as_str());
            let suffix_len: usize = text::char_count(suffix);
            let r = text::string_from(&chars, 0, chars.len() - suffix_len);
            assert(r@ =~= s@.subrange(prefix@.len() as int, s@.len() - suffix@.len()));
            Some(r)
        } else {
            None
        },
    }
}

pub fn text_after(s: &str, prefix: &str) -> (r: Option<String>)
    ensures
        text::text_opt(r) == after(s@, prefix@),
{
    if !text::str_starts_with(s, prefix) {
        return None;
    }
    let chars = text::chars_of(s);
    let from: usize = text::char_count(prefix);
    Some(text::string_from(&chars, from, chars.len()))
}

/// The environment variable that a text refers to, if it refers to one: `${NAME}`
/// or `$NAME`.
pub open spec fn env_ref(value: Seq<char>) -> Option<Seq<char>> {
    let name = match between(value, "${"@, "}"@) {
        Some(name) => Some(name),
        None => after(value, "$"@),
    };
    match name {
        Some(name) => if env_var_name(name) {
            Some(name)
        } else {
            None
        },
        None => None,
    }
}

pub fn parse_env_ref(value: &str) -> (r: Option<String>)
    ensures
        text::text_opt(r) == env_ref(value@),
{
    let name = match text_between(value, "${", "}") {
        Some(name) => Some(name),
        None => text_after(value, "$"),
    };
    match name {
        Some(name) => if is_env_var_name(name.as_str()) {
            Some(name)
        } else {
            None
        },
        None => None,
    }
}

/// Whether a text can be the name of a keychain entry in a reference.
pub open spec fn keychain_name(name: Seq<char>) -> bool {
    &&& !text::is_blank(name)
    &&& forall|i: int|
        0 <= i < name.len() ==> !text::is_control_code(#[trigger] name[i]) && !text::is_space(
            name[i],
        ) && name[i] != '/' && name[i] != '\\'
}

fn is_keychain_name(name: &str) -> (r: bool)
    ensures
        r == keychain_name(name@),
{
    if text::blank(name) {
        return false;
    }
    let chars = text::chars_of(name);
    let mut i: usize = 0;
    while i < chars.len()
        invariant
            i <= chars.len(),
            chars@ == name@,
            !text::is_blank(name@),
            forall|j: int|
                0 <= j < i ==> !text::is_control_code(#[trigger] name@[j]) && !text::is_space(
                    name@[j],
                ) && name@[j] != '/' && name@[j] != '\\',
        decreases chars.len() - i,
    {
        let c = chars[i];
        assert(name@[i as int] == c);
        if c.is_control() || c.is_whitespace() || c == '/' || c == '\\' {
            return false;
        }
        i += 1;
    }
    true
}

/// Whether a text is a reference to a secret and nothing else.
pub open spec fn secret_reference(value: Seq<char>) -> bool {
    ||| env_ref(value) is Some
    ||| match after(value, "keychain:"@) {
        Some(name) => keychain_name(name),
        None => match between(value, "${keychain:"@, "}"@) {
            Some(name) => keychain_name(name),
            None => false,
        },
    }
}

pub fn is_strict_secret_reference(value: &str) -> (r: bool)
    ensures
        r == secret_reference(value@),
{
    if parse_env_ref(value).is_some() {
        return true;
    }
    match text_after(value, "keychain:") {
        Some(name) => is_keychain_name(name.as_str()),
        None => match text_between(value, "${keychain:", "}") {
            Some(name) => is_keychain_name(name.as_str()),
            None => false,
        },
    }
}

/// Whether a key names a secret.
pub open spec fn secret_key(key: Seq<char>) -> bool {
    let k = text::ascii_lowered(key);
    ||| text::occurs_in("secret"@, k)
    ||| text::occurs_in("token"@, k)
    ||| text::occurs_in("password"@, k)
    ||| text::occurs_in("credential"@, k)
    ||| text::occurs_in("api_key"@, k)
    ||| text::occurs_in("api-key"@, k)
    ||| text::occurs_in("apikey"@, k)
}

pub fn is_secret_key(key: &str) -> (r: bool)
    ensures
        r == secret_key(key@),
{
    let k = text::ascii_lowercase(key);
    let k = k.as_str();
    text::str_contains(k, "secret") || text::str_contains(k, "token") || text::str_contains(
        k,
        "password",
    ) || text::str_contains(k, "credential") || text::str_contains(k, "api_key")
        || text::str_contains(k, "api-key") || text::str_contains(k, "apikey")
}

// ---------------------------------------------------------------------------
// Laws.

/// Whether a text looks like a secret does not depend on the case of its ASCII
/// letters, nor does whether a key names one.
pub proof fn law_case_hides_no_secret(a: Seq<char>, b: Seq<char>)
    requires
        text::same_but_case(a, b),
    ensures
        secret_like(a) == secret_like(b),
        secret_key(a) == secret_key(b),
{
}

/// A word of 20 bytes or more that begins as a token of a well-known service
/// looks like a secret, wherever it stands.
pub proof fn law_tokens_are_seen(value: Seq<char>, i: int)
    requires
        0 <= i < text::words(text::ascii_lowered(value)).len(),
        text::utf8_len(text::words(text::ascii_lowered(value))[i]) >= 20,
        text::starts_with(text::words(text::ascii_lowered(value))[i], "sk-"@) || text::starts_with(
            text::words(text::ascii_lowered(value))[i],
            "ghp_"@,
        ) || text::starts_with(text::words(text::ascii_lowered(value))[i], "xoxb-"@),
    ensures
        secret_like(value),
{
    assert(is_known_token(text::words(text::ascii_lowered(value))[i]));
}

/// A word of 16 bytes or more after the first `bearer` looks like a secret.
pub proof fn law_bearer_tokens_are_seen(value: Seq<char>, i: int)
    requires
        0 <= i,
        i + 1 < text::words(text::ascii_lowered(value)).len(),
        text::words(text::ascii_lowered(value))[i] == "bearer"@,
        forall|j: int|
            0 <= j < i ==> #[trigger] text::words(text::ascii_lowered(value))[j] != "bearer"@,
        text::utf8_len(text::words(text::ascii_lowered(value))[i + 1]) >= 16,
    ensures
        secret_like(value),
{
    lemma_bearer_at(text::words(text::ascii_lowered(value)), i, 0);
}

proof fn lemma_bearer_at(words: Seq<Seq<char>>, i: int, from: int)
    requires
        0 <= from <= i < words.len(),
        words[i] == "bearer"@,
        forall|j: int| 0 <= j < i ==> #[trigger] words[j] != "bearer"@,
    ensures
        bearer_position(words, from) == i,
    decreases i - from,
{
    if from < i {
        assert(words[from] != "bearer"@);
        lemma_bearer_at(words, i, from + 1);
    }
}

/// A value after a key, quoted or not, is an assignment; an empty one, or the
/// start of the next parameter or of a fragment, is none.
pub proof fn law_assignments_are_seen(
    before: Seq<char>,
    key: Seq<char>,
    quotes: Seq<char>,
    rest: Seq<char>,
)
    requires
        forall|i: int| 0 <= i < before.len() ==> !#[trigger] text::occurs_at(
            before + key + quotes + rest,
            key,
            i,
        ),
        forall|i: int| 0 <= i < quotes.len() ==> ((#[trigger] quotes[i]) == '"' || quotes[i]
            == '\'' || quotes[i] == '`' || quotes[i] == ' '),
        rest.len() > 0 ==> rest[0] != '"' && rest[0] != '\'' && rest[0] != '`' && rest[0] != ' ',
    ensures
        assigns(before + key + quotes + rest, key) <==> rest.len() > 0 && rest[0] != '&'
            && rest[0] != '#',
{
    let s = before + key + quotes + rest;
    assert(s.subrange(before.len() as int, (before.len() + key.len()) as int) =~= key);
    assert(text::occurs_at(s, key, before.len() as int));
    text::law_first_occurrences(s, key, 0);
    let at = text::first_occurrence(s, key, 0);
    assert(at == Some(before.len() as int)) by {
        match at {
            Some(n) => {
                assert(text::occurs_at(s, key, n));
            },
            None => {},
        }
    }
    let value = s.subrange((before.len() + key.len()) as int, s.len() as int);
    assert(value =~= quotes + rest);
    lemma_unquoted(quotes, rest);
}

proof fn lemma_unquoted(quotes: Seq<char>, rest: Seq<char>)
    requires
        forall|i: int| 0 <= i < quotes.len() ==> ((#[trigger] quotes[i]) == '"' || quotes[i]
            == '\'' || quotes[i] == '`' || quotes[i] == ' '),
        rest.len() > 0 ==> rest[0] != '"' && rest[0] != '\'' && rest[0] != '`' && rest[0] != ' ',
    ensures
        without_quotes(quotes + rest) == rest,
    decreases quotes.len(),
{
    if quotes.len() == 0 {
        assert(quotes + rest =~= rest);
    } else {
        let tail = quotes.subrange(1, quotes.len() as int);
        assert(is_quote_or_space(quotes[0]));
        assert((quotes + rest).subrange(1, (quotes + rest).len() as int) =~= tail + rest);
        assert forall|i: int| 0 <= i < tail.len() implies ((#[trigger] tail[i]) == '"' || tail[i]
            == '\'' || tail[i] == '`' || tail[i] == ' ') by {
            assert(tail[i] == quotes[i + 1]);
        }
        lemma_unquoted(tail, rest);
    }
}

/// An assignment to any key that names a secret looks like a secret.
pub proof fn law_secret_keys_are_seen(value: Seq<char>)
    ensures
        ({
            let lower = text::ascii_lowered(value);
            assigns(lower, "api_key="@) || assigns(lower, "api_key:"@) || assigns(
                lower,
                "apikey="@,
            ) || assigns(lower, "apikey:"@) || assigns(lower, "password="@) || assigns(
                lower,
                "password:"@,
            ) || assigns(lower, "token="@) || assigns(lower, "token:"@) || assigns(
                lower,
                "secret="@,
            ) || assigns(lower, "secret:"@) || assigns(lower, "credential="@) || assigns(
                lower,
                "credential:"@,
            )
        }) ==> secret_like(value),
{
}

/// A parameter of a query that names a secret looks like a secret.
pub proof fn law_secret_parameters_are_seen(
    value: Seq<char>,
    i: int,
    key: Seq<char>,
)
    requires
        ({
            let lower = text::ascii_lowered(value);
            let end = i + 1 + key.len();
            &&& 0 <= i < lower.len()
            &&& lower[i] == '?' || lower[i] == '&'
            &&& key == "token"@ || key == "secret"@ || key == "password"@ || key == "credential"@
                || key == "api_key"@ || key == "apikey"@
            &&& end <= lower.len()
            &&& lower.subrange(i + 1, end) == key
            &&& end == lower.len() || lower[end] == '=' || lower[end] == '&' || lower[end] == '?'
        }),
    ensures
        secret_like(value),
{
    let lower = text::ascii_lowered(value);
    assert(query_key_after(lower, i, key));
    assert(secret_query_after(lower, i));
}

/// An address with a user before its host looks like a secret.
pub proof fn law_users_in_addresses_are_seen(
    before: Seq<char>,
    user: Seq<char>,
    rest: Seq<char>,
)
    requires
        forall|i: int| 0 <= i < before.len() ==> #[trigger] before[i] != '/',
        forall|i: int| 0 <= i < user.len() ==> #[trigger] user[i] != '/',
    ensures
        names_user(before + seq!['/', '/'] + user + seq!['@'] + rest),
{
    let slashes = seq!['/', '/'];
    let s = before + slashes + user + seq!['@'] + rest;
    let n = before.len() as int;
    assert(s.subrange(n, n + 2) =~= slashes);
    assert(text::occurs_at(s, slashes, n));
    text::law_first_occurrences(s, slashes, 0);
    match text::first_occurrence(s, slashes, 0) {
        Some(at) => {
            if at < n {
                assert(s.subrange(at, at + 2)[0] == slashes[0]);
                assert(s[at] == before[at]);
            }
            if at > n {
                assert(!text::occurs_at(s, slashes, n));
            }
            let tail = s.subrange(at + 2, s.len() as int);
            assert(tail =~= user + seq!['@'] + rest);
            assert(tail[user.len() as int] == '@');
            assert forall|k: int| 0 <= k < user.len() implies (#[trigger] tail[k]) != '/' by {
                assert(tail[k] == user[k]);
            }
            assert(starts_with_user(tail));
        },
        None => {
            assert(!text::occurs_at(s, slashes, n));
        },
    }
}

/// A text without a word that is `bearer` or a token, without an equals sign, a
/// colon, two slashes in a row, a question mark or an ampersand holds no secret.
pub proof fn law_plain_texts_are_no_secrets(value: Seq<char>)
    requires
        ({
            let lower = text::ascii_lowered(value);
            let words = text::words(lower);
            &&& forall|i: int|
                0 <= i < words.len() ==> #[trigger] words[i] != "bearer"@ && (text::utf8_len(
                    words[i],
                ) < 20 || !(text::starts_with(words[i], "sk-"@) || text::starts_with(
                    words[i],
                    "ghp_"@,
                ) || text::starts_with(words[i], "xoxb-"@)))
            &&& forall|i: int|
                0 <= i < lower.len() ==> #[trigger] lower[i] != '=' && lower[i] != ':' && lower[i]
                    != '?' && lower[i] != '&' && lower[i] != '/'
        }),
    ensures
        !secret_like(value),
{
    let lower = text::ascii_lowered(value);
    let words = text::words(lower);
    lemma_no_bearer(words, 0);
    reveal_strlit("api_key=");
    reveal_strlit("api_key:");
    reveal_strlit("apikey=");
    reveal_strlit("apikey:");
    reveal_strlit("password=");
    reveal_strlit("password:");
    reveal_strlit("token=");
    reveal_strlit("token:");
    reveal_strlit("secret=");
    reveal_strlit("secret:");
    reveal_strlit("credential=");
    reveal_strlit("credential:");
    lemma_no_assignment(lower, "api_key="@);
    lemma_no_assignment(lower, "api_key:"@);
    lemma_no_assignment(lower, "apikey="@);
    lemma_no_assignment(lower, "apikey:"@);
    lemma_no_assignment(lower, "password="@);
    lemma_no_assignment(lower, "password:"@);
    lemma_no_assignment(lower, "token="@);
    lemma_no_assignment(lower, "token:"@);
    lemma_no_assignment(lower, "secret="@);
    lemma_no_assignment(lower, "secret:"@);
    lemma_no_assignment(lower, "credential="@);
    lemma_no_assignment(lower, "credential:"@);
    text::law_first_occurrences(lower, seq!['/', '/'], 0);
    match text::first_occurrence(lower, seq!['/', '/'], 0) {
        Some(at) => {
            assert(lower.subrange(at, at + 2)[0] == '/');
            assert(lower[at] == '/');
        },
        None => {},
    }
    assert forall|i: int| 0 <= i < lower.len() implies !#[trigger] secret_query_after(
        lower,
        i,
    ) by {
        assert(lower[i] != '?' && lower[i] != '&');
    }
}

proof fn lemma_no_bearer(words: Seq<Seq<char>>, from: int)
    requires
        0 <= from <= words.len(),
        forall|i: int| 0 <= i < words.len() ==> #[trigger] words[i] != "bearer"@,
    ensures
        bearer_position(words, from) == words.len(),
    decreases words.len() - from,
{
    if from < words.len() {
        assert(words[from] != "bearer"@);
        lemma_no_bearer(words, from + 1);
    }
}

proof fn lemma_no_assignment(s: Seq<char>, key: Seq<char>)
    requires
        key.len() > 0,
        key.last() == '=' || key.last() == ':',
        forall|i: int| 0 <= i < s.len() ==> #[trigger] s[i] != '=' && s[i] != ':',
    ensures
        !assigns(s, key),
{
    text::law_first_occurrences(s, key, 0);
    match text::first_occurrence(s, key, 0) {
        Some(at) => {
            let last = at + key.len() - 1;
            assert(s.subrange(at, at + key.len())[key.len() - 1] == key.last());
            assert(s[last] == key.last());
        },
        None => {},
    }
}

/// The name of an environment variable has ASCII letters, digits and
/// underscores, and no digit at its start.
pub proof fn law_names_of_variables(s: Seq<char>)
    ensures
        env_var_name(s) <==> s.len() > 0 && !('0' <= s[0] <= '9') && forall|i: int|
            0 <= i < s.len() ==> ('a' <= #[trigger] s[i] <= 'z' || 'A' <= s[i] <= 'Z' || '0' <= s[i]
                <= '9' || s[i] == '_'),
{
    if s.len() > 0 && forall|i: int|
        0 <= i < s.len() ==> ('a' <= #[trigger] s[i] <= 'z' || 'A' <= s[i] <= 'Z' || '0' <= s[i]
            <= '9' || s[i] == '_') {
        assert forall|i: int| 0 <= i < s.len() implies (#[trigger] s[i]) == '_'
            || text::is_ascii_alnum(s[i]) by {}
    }
}

/// A reference to an environment variable is a dollar sign and its name, in
/// braces or not.
pub proof fn law_references_to_variables(name: Seq<char>, value: Seq<char>)
    ensures
        env_var_name(name) ==> env_ref("$"@ + name) == Some(name) && env_ref(
            "${"@ + name + "}"@,
        ) == Some(name),
        env_ref(value) is Some ==> env_var_name(env_ref(value)->0) && (value == "$"@ + env_ref(
            value,
        )->0 || value == "${"@ + env_ref(value)->0 + "}"@),
{
    reveal_strlit("$");
    reveal_strlit("${");
    reveal_strlit("}");
    if env_var_name(name) {
        let plain = "$"@ + name;
        let braced = "${"@ + name + "}"@;
        assert(plain.subrange(0, 1) =~= "$"@);
        assert(plain.subrange(1, plain.len() as int) =~= name);
        assert(plain[1] == name[0]);
        assert(name[0] == '_' || text::is_ascii_alnum(name[0]));
        if text::starts_with(plain, "${"@) {
            assert(plain.subrange(0, 2)[1] == "${"@[1]);
        }
        assert(braced.subrange(0, 2) =~= "${"@);
        let rest = braced.subrange(2, braced.len() as int);
        assert(rest =~= name + "}"@);
        assert(rest.subrange(rest.len() - 1, rest.len() as int) =~= "}"@);
        assert(braced.subrange(2, braced.len() - 1) =~= name);
    }
    if env_ref(value) is Some {
        if between(value, "${"@, "}"@) is Some {
            text::law_parts_of_texts(value, "${"@);
            let rest = value.subrange(2, value.len() as int);
            text::law_parts_of_texts(rest, "}"@);
            assert(rest.subrange(0, rest.len() - 1) =~= value.subrange(2, value.len() - 1));
            assert(value =~= "${"@ + env_ref(value)->0 + "}"@);
        } else {
            text::law_parts_of_texts(value, "$"@);
            assert(value =~= "$"@ + env_ref(value)->0);
        }
    }
}

/// A key names a secret exactly where it holds one of these words, in any case.
pub proof fn law_keys_of_secrets(key: Seq<char>)
    ensures
        secret_key(key) <==> exists|word: Seq<char>| #[trigger]
            names_a_secret(word) && text::occurs_in(word, text::ascii_lowered(key)),
{
    if secret_key(key) {
        assert(names_a_secret("secret"@));
        assert(names_a_secret("token"@));
        assert(names_a_secret("password"@));
        assert(names_a_secret("credential"@));
        assert(names_a_secret("api_key"@));
        assert(names_a_secret("api-key"@));
        assert(names_a_secret("apikey"@));
    }
}

/// The words that name a secret.
pub open spec fn names_a_secret(word: Seq<char>) -> bool {
    word == "secret"@ || word == "token"@ || word == "password"@ || word == "credential"@ || word
        == "api_key"@ || word == "api-key"@ || word == "apikey"@
}

} // verus!
