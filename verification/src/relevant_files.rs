//! Finding the files of a codebase that bear on a query, without a provider: by
//! the outline of the codebase and by what the files hold.

use crate::order;
use crate::order::Ordered;
use crate::paths;
use crate::text;
use crate::tokens;
use unicode_normalization_alignments::UnicodeNormalization;
use vstd::prelude::*;

verus! {

/// The largest number of files that a search returns.
pub const LOCAL_OUTLINE_RESULT_LIMIT: usize = 20;

/// The largest number of files whose contents are searched.
pub const LOCAL_CONTENT_SEARCH_MAX_FILES: usize = 128;

/// The number of bytes at the start of a file that are searched.
pub const LOCAL_CONTENT_SEARCH_MAX_BYTES_PER_FILE: usize = 65_536;

// ---------------------------------------------------------------------------
// Tokens.

/// A text in Unicode normalisation form C.
pub uninterp spec fn nfc_of(s: Seq<char>) -> Seq<char>;

/// `unicode_normalization_alignments`'s `nfc` puts the characters into
/// normalisation form C; what comes out depends on the characters alone. The
/// alignment that it yields beside each character is left out.
#[verifier::external_body]
fn nfc_text(s: &str) -> (r: String)
    ensures
        r@ == nfc_of(s@),
{
    s.chars().nfc().map(|pair| pair.0).collect()
}

/// The tokens of a text. Texts that are canonically equivalent have the same
/// tokens.
pub open spec fn normalized(s: Seq<char>) -> Seq<Seq<char>> {
    tokens::lexemes(nfc_of(s))
}

pub fn normalized_tokens(value: &str) -> (r: Vec<String>)
    ensures
        text::texts(r@) == normalized(value@),
{
    tokens::split_lexemes(nfc_text(value).as_str())
}

/// The tokens of a path with slashes between them.
pub open spec fn path_key(path: Seq<char>) -> Seq<char> {
    tokens::joined_with(normalized(path), "/"@)
}

pub fn normalized_path(path: &str) -> (r: String)
    ensures
        r@ == path_key(path@),
{
    tokens::join_texts(&normalized_tokens(path), "/")
}

/// Whether tokens stand in a row at a position.
pub open spec fn sequence_at(hay: Seq<Seq<char>>, needle: Seq<Seq<char>>, at: int) -> bool {
    0 <= at && at + needle.len() <= hay.len() && hay.subrange(at, at + needle.len()) == needle
}

/// Whether tokens stand in a row.
pub open spec fn sequence_in(hay: Seq<Seq<char>>, needle: Seq<Seq<char>>) -> bool {
    needle.len() > 0 && exists|at: int| sequence_at(hay, needle, at)
}

fn token_sequence_at(hay: &Vec<String>, needle: &Vec<String>, at: usize) -> (r: bool)
    requires
        at + needle.len() <= hay.len(),
    ensures
        r == sequence_at(text::texts(hay@), text::texts(needle@), at as int),
{
    let ghost h = text::texts(hay@);
    let ghost n = text::texts(needle@);
    let mut i: usize = 0;
    while i < needle.len()
        invariant
            i <= needle.len(),
            at + needle.len() <= hay.len(),
            h == text::texts(hay@),
            n == text::texts(needle@),
            forall|j: int| 0 <= j < i ==> h[at + j] == #[trigger] n[j],
        decreases needle.len() - i,
    {
        assert(h[at + i] == hay@[at + i]@ && n[i as int] == needle@[i as int]@);
        if !text::same_text(hay[at + i].as_str(), needle[i].as_str()) {
            assert(h.subrange(at as int, at + n.len())[i as int] != n[i as int]);
            return false;
        }
        i += 1;
    }
    assert(h.subrange(at as int, at + n.len()) =~= n);
    true
}

pub fn contains_token_sequence(hay: &Vec<String>, needle: &Vec<String>) -> (r: bool)
    ensures
        r == sequence_in(text::texts(hay@), text::texts(needle@)),
{
    let ghost h = text::texts(hay@);
    let ghost n = text::texts(needle@);
    assert(h.len() == hay.len() && n.len() == needle.len());
    if needle.len() == 0 || needle.len() > hay.len() {
        return false;
    }
    let last: usize = hay.len() - needle.len();
    let mut at: usize = 0;
    while at < last
        invariant
            at <= last,
            last == hay.len() - needle.len(),
            0 < needle.len() <= hay.len(),
            h == text::texts(hay@),
            n == text::texts(needle@),
            forall|j: int| 0 <= j < at ==> !#[trigger] sequence_at(h, n, j),
        decreases last - at,
    {
        if token_sequence_at(hay, needle, at) {
            return true;
        }
        at += 1;
    }
    token_sequence_at(hay, needle, at)
}

// ---------------------------------------------------------------------------
// Scores.

/// A file of an outline with the symbols that it defines.
#[derive(Debug, PartialEq, Eq)]
pub struct FileContext<S = String> {
    pub path: S,
    pub symbols: S,
}

pub type FileModel = FileContext<Seq<char>>;

impl View for FileContext<String> {
    type V = FileModel;

    open spec fn view(&self) -> FileModel {
        FileContext { path: self.path@, symbols: self.symbols@ }
    }
}

impl Clone for FileContext<String> {
    fn clone(&self) -> (r: Self)
        ensures
            r@ == self@,
    {
        FileContext { path: self.path.clone(), symbols: self.symbols.clone() }
    }
}

pub open spec fn file_models(v: Seq<FileContext>) -> Seq<FileModel> {
    Seq::new(v.len(), |i: int| v[i]@)
}

/// How many tokens of a query match a file, by how they match. A match of a
/// kind further up outweighs any number of matches of a kind further down.
#[derive(Clone, Copy, Debug, PartialEq, Eq, Structural)]
pub struct LocalCandidateScore {
    /// Partial paths in the path and tokens of the directory.
    pub path_matches: u64,
    pub file_name_matches: u64,
    /// Tokens and starts of tokens of the symbols.
    pub symbol_token_matches: u64,
    pub symbol_substring_matches: u64,
    pub content_token_matches: u64,
    pub content_substring_matches: u64,
}

pub open spec fn zero_score() -> LocalCandidateScore {
    LocalCandidateScore {
        path_matches: 0,
        file_name_matches: 0,
        symbol_token_matches: 0,
        symbol_substring_matches: 0,
        content_token_matches: 0,
        content_substring_matches: 0,
    }
}

impl Default for LocalCandidateScore {
    fn default() -> (r: Self)
        ensures
            r == zero_score(),
    {
        LocalCandidateScore {
            path_matches: 0,
            file_name_matches: 0,
            symbol_token_matches: 0,
            symbol_substring_matches: 0,
            content_token_matches: 0,
            content_substring_matches: 0,
        }
    }
}

/// Whether a score is higher than another: the first kind in which they differ
/// decides.
pub open spec fn outranks(a: LocalCandidateScore, b: LocalCandidateScore) -> bool {
    if a.path_matches != b.path_matches {
        a.path_matches > b.path_matches
    } else if a.file_name_matches != b.file_name_matches {
        a.file_name_matches > b.file_name_matches
    } else if a.symbol_token_matches != b.symbol_token_matches {
        a.symbol_token_matches > b.symbol_token_matches
    } else if a.symbol_substring_matches != b.symbol_substring_matches {
        a.symbol_substring_matches > b.symbol_substring_matches
    } else if a.content_token_matches != b.content_token_matches {
        a.content_token_matches > b.content_token_matches
    } else {
        a.content_substring_matches > b.content_substring_matches
    }
}

fn score_outranks(a: &LocalCandidateScore, b: &LocalCandidateScore) -> (r: bool)
    ensures
        r == outranks(*a, *b),
{
    if a.path_matches != b.path_matches {
        a.path_matches > b.path_matches
    } else if a.file_name_matches != b.file_name_matches {
        a.file_name_matches > b.file_name_matches
    } else if a.symbol_token_matches != b.symbol_token_matches {
        a.symbol_token_matches > b.symbol_token_matches
    } else if a.symbol_substring_matches != b.symbol_substring_matches {
        a.symbol_substring_matches > b.symbol_substring_matches
    } else if a.content_token_matches != b.content_token_matches {
        a.content_token_matches > b.content_token_matches
    } else {
        a.content_substring_matches > b.content_substring_matches
    }
}

/// A sum that stops at the largest number.
pub open spec fn capped(n: int) -> u64 {
    if n > u64::MAX {
        u64::MAX
    } else {
        n as u64
    }
}

fn capped_sum(a: u64, b: u64) -> (r: u64)
    ensures
        r == capped(a + b),
{
    if a > u64::MAX - b {
        u64::MAX
    } else {
        a + b
    }
}

/// Two scores together.
pub open spec fn score_sum(a: LocalCandidateScore, b: LocalCandidateScore) -> LocalCandidateScore {
    LocalCandidateScore {
        path_matches: capped(a.path_matches + b.path_matches),
        file_name_matches: capped(a.file_name_matches + b.file_name_matches),
        symbol_token_matches: capped(a.symbol_token_matches + b.symbol_token_matches),
        symbol_substring_matches: capped(
            a.symbol_substring_matches + b.symbol_substring_matches,
        ),
        content_token_matches: capped(a.content_token_matches + b.content_token_matches),
        content_substring_matches: capped(
            a.content_substring_matches + b.content_substring_matches,
        ),
    }
}

fn sum_scores(a: &LocalCandidateScore, b: &LocalCandidateScore) -> (r: LocalCandidateScore)
    ensures
        r == score_sum(*a, *b),
{
    LocalCandidateScore {
        path_matches: capped_sum(a.path_matches, b.path_matches),
        file_name_matches: capped_sum(a.file_name_matches, b.file_name_matches),
        symbol_token_matches: capped_sum(a.symbol_token_matches, b.symbol_token_matches),
        symbol_substring_matches: capped_sum(
            a.symbol_substring_matches,
            b.symbol_substring_matches,
        ),
        content_token_matches: capped_sum(a.content_token_matches, b.content_token_matches),
        content_substring_matches: capped_sum(
            a.content_substring_matches,
            b.content_substring_matches,
        ),
    }
}

/// The names of the directories above a file, with slashes between them.
pub open spec fn directory_text(path: Seq<char>) -> Seq<char> {
    let names = paths::components(path);
    if names.len() == 0 {
        Seq::empty()
    } else {
        tokens::joined_with(names.drop_last(), "/"@)
    }
}

fn directory_of(path: &str) -> (r: String)
    ensures
        r@ == directory_text(path@),
{
    let mut names = paths::path_components(path);
    let ghost all = text::texts(names@);
    match names.pop() {
        Some(_) => {
            assert(text::texts(names@) =~= all.drop_last());
            tokens::join_texts(&names, "/")
        },
        None => String::new(),
    }
}

/// The tokens of an optional text.
pub open spec fn normalized_opt(s: Option<Seq<char>>) -> Seq<Seq<char>> {
    match s {
        Some(s) => normalized(s),
        None => Seq::empty(),
    }
}

fn normalized_tokens_opt(s: Option<String>) -> (r: Vec<String>)
    ensures
        text::texts(r@) == normalized_opt(text::text_opt(s)),
{
    match s {
        Some(s) => normalized_tokens(s.as_str()),
        None => {
            let none: Vec<String> = Vec::new();
            assert(text::texts(none@) =~= Seq::<Seq<char>>::empty());
            none
        },
    }
}

/// Whether a token holds another one.
pub open spec fn some_holds(tokens: Seq<Seq<char>>, token: Seq<char>) -> bool {
    exists|i: int| 0 <= i < tokens.len() && text::occurs_in(token, #[trigger] tokens[i])
}

/// Whether a token starts with another one.
pub open spec fn some_starts(tokens: Seq<Seq<char>>, token: Seq<char>) -> bool {
    exists|i: int| 0 <= i < tokens.len() && text::starts_with(#[trigger] tokens[i], token)
}

fn any_holds(tokens: &Vec<String>, token: &str) -> (r: bool)
    ensures
        r == some_holds(text::texts(tokens@), token@),
{
    let ghost all = text::texts(tokens@);
    let mut i: usize = 0;
    while i < tokens.len()
        invariant
            i <= tokens.len(),
            all == text::texts(tokens@),
            forall|j: int| 0 <= j < i ==> !text::occurs_in(token@, #[trigger] all[j]),
        decreases tokens.len() - i,
    {
        assert(all[i as int] == tokens@[i as int]@);
        if text::str_contains(tokens[i].as_str(), token) {
            return true;
        }
        i += 1;
    }
    false
}

fn any_starts(tokens: &Vec<String>, token: &str) -> (r: bool)
    ensures
        r == some_starts(text::texts(tokens@), token@),
{
    let ghost all = text::texts(tokens@);
    let mut i: usize = 0;
    while i < tokens.len()
        invariant
            i <= tokens.len(),
            all == text::texts(tokens@),
            forall|j: int| 0 <= j < i ==> !text::starts_with(#[trigger] all[j], token@),
        decreases tokens.len() - i,
    {
        assert(all[i as int] == tokens@[i as int]@);
        if text::str_starts_with(tokens[i].as_str(), token) {
            return true;
        }
        i += 1;
    }
    false
}

/// How a token of the query matches the outline of a file.
#[derive(Clone, Copy, Debug, PartialEq, Eq, Structural)]
pub enum OutlineMatch {
    Path,
    FileName,
    SymbolToken,
    SymbolSubstring,
    Nothing,
}

/// The strongest match of a token with the outline of a file.
pub open spec fn outline_match(token: Seq<char>, file: FileModel) -> OutlineMatch {
    if normalized(directory_text(file.path)).contains(token) {
        OutlineMatch::Path
    } else if some_holds(normalized_opt(paths::file_name(file.path)), token) || some_holds(
        normalized_opt(paths::file_stem(file.path)),
        token,
    ) {
        OutlineMatch::FileName
    } else if some_starts(normalized(file.symbols), token) {
        OutlineMatch::SymbolToken
    } else if some_holds(normalized(file.symbols), token) {
        OutlineMatch::SymbolSubstring
    } else {
        OutlineMatch::Nothing
    }
}

/// The number of tokens that match in a given way.
pub open spec fn match_count(
    query: Seq<Seq<char>>,
    file: FileModel,
    wanted: OutlineMatch,
) -> nat
    decreases query.len(),
{
    if query.len() == 0 {
        0
    } else {
        match_count(query.drop_last(), file, wanted) + (if outline_match(query.last(), file)
            == wanted {
            1nat
        } else {
            0nat
        })
    }
}

/// The number of partial paths that lie in the path of a file.
pub open spec fn partial_count(partials: Seq<Seq<char>>, path: Seq<char>) -> nat
    decreases partials.len(),
{
    if partials.len() == 0 {
        0
    } else {
        partial_count(partials.drop_last(), path) + (if sequence_in(
            normalized(path),
            normalized(partials.last()),
        ) {
            1nat
        } else {
            0nat
        })
    }
}

/// The score of a file by its outline. Each token counts once, by its strongest
/// match.
pub open spec fn outline_score(
    query: Seq<Seq<char>>,
    partials: Seq<Seq<char>>,
    file: FileModel,
) -> LocalCandidateScore {
    LocalCandidateScore {
        path_matches: capped(
            (partial_count(partials, file.path) + match_count(
                query,
                file,
                OutlineMatch::Path,
            )) as int,
        ),
        file_name_matches: match_count(query, file, OutlineMatch::FileName) as u64,
        symbol_token_matches: match_count(query, file, OutlineMatch::SymbolToken) as u64,
        symbol_substring_matches: match_count(query, file, OutlineMatch::SymbolSubstring) as u64,
        content_token_matches: 0,
        content_substring_matches: 0,
    }
}

/// The tokens of a file by which it is scored.
struct FileTokens {
    path: Vec<String>,
    directory: Vec<String>,
    file_name: Vec<String>,
    file_stem: Vec<String>,
    symbols: Vec<String>,
}

impl FileTokens {
    spec fn of(&self, file: FileModel) -> bool {
        &&& text::texts(self.path@) == normalized(file.path)
        &&& text::texts(self.directory@) == normalized(directory_text(file.path))
        &&& text::texts(self.file_name@) == normalized_opt(paths::file_name(file.path))
        &&& text::texts(self.file_stem@) == normalized_opt(paths::file_stem(file.path))
        &&& text::texts(self.symbols@) == normalized(file.symbols)
    }

    fn new(file: &FileContext) -> (r: Self)
        ensures
            r.of(file@),
    {
        let path = file.path.as_str();
        FileTokens {
            path: normalized_tokens(path),
            directory: normalized_tokens(directory_of(path).as_str()),
            file_name: normalized_tokens_opt(paths::path_file_name(path)),
            file_stem: normalized_tokens_opt(paths::path_file_stem(path)),
            symbols: normalized_tokens(file.symbols.as_str()),
        }
    }

    fn match_of(&self, token: &str, Ghost(file): Ghost<FileModel>) -> (r: OutlineMatch)
        requires
            self.of(file),
        ensures
            r == outline_match(token@, file),
    {
        if text::strings_contain(&self.directory, token) {
            OutlineMatch::Path
        } else if any_holds(&self.file_name, token) || any_holds(&self.file_stem, token) {
            OutlineMatch::FileName
        } else if any_starts(&self.symbols, token) {
            OutlineMatch::SymbolToken
        } else if any_holds(&self.symbols, token) {
            OutlineMatch::SymbolSubstring
        } else {
            OutlineMatch::Nothing
        }
    }
}

fn count_partials(partials: &Vec<String>, path_tokens: &Vec<String>, Ghost(path): Ghost<
    Seq<char>,
>) -> (r: u64)
    requires
        text::texts(path_tokens@) == normalized(path),
    ensures
        r == partial_count(text::texts(partials@), path),
{
    let ghost all = text::texts(partials@);
    let mut count: u64 = 0;
    let mut i: usize = 0;
    assert(all.subrange(0, 0) =~= Seq::<Seq<char>>::empty());
    while i < partials.len()
        invariant
            i <= partials.len(),
            all == text::texts(partials@),
            text::texts(path_tokens@) == normalized(path),
            count == partial_count(all.subrange(0, i as int), path),
            count <= i,
        decreases partials.len() - i,
    {
        let ghost part = all.subrange(0, i + 1);
        assert(part.drop_last() =~= all.subrange(0, i as int));
        assert(part.last() == partials@[i as int]@);
        let wanted = normalized_tokens(partials[i].as_str());
        if contains_token_sequence(path_tokens, &wanted) {
            count += 1;
        }
        i += 1;
    }
    assert(all.subrange(0, all.len() as int) =~= all);
    count
}

/// Scores a file by its outline.
pub fn outline_candidate_score(
    query_tokens: &Vec<String>,
    partial_path_segments: &Vec<String>,
    candidate: &FileContext,
) -> (r: LocalCandidateScore)
    ensures
        r == outline_score(
            text::texts(query_tokens@),
            text::texts(partial_path_segments@),
            candidate@,
        ),
{
    let tokens = FileTokens::new(candidate);
    let ghost file = candidate@;
    let ghost query = text::texts(query_tokens@);
    let partial: u64 = count_partials(partial_path_segments, &tokens.path, Ghost(file.path));
    let mut path: u64 = 0;
    let mut name: u64 = 0;
    let mut symbol: u64 = 0;
    let mut inside: u64 = 0;
    let mut i: usize = 0;
    assert(query.subrange(0, 0) =~= Seq::<Seq<char>>::empty());
    while i < query_tokens.len()
        invariant
            i <= query_tokens.len(),
            query == text::texts(query_tokens@),
            tokens.of(file),
            path == match_count(query.subrange(0, i as int), file, OutlineMatch::Path),
            name == match_count(query.subrange(0, i as int), file, OutlineMatch::FileName),
            symbol == match_count(query.subrange(0, i as int), file, OutlineMatch::SymbolToken),
            inside == match_count(
                query.subrange(0, i as int),
                file,
                OutlineMatch::SymbolSubstring,
            ),
            path <= i,
            name <= i,
            symbol <= i,
            inside <= i,
        decreases query_tokens.len() - i,
    {
        let ghost part = query.subrange(0, i + 1);
        assert(part.drop_last() =~= query.subrange(0, i as int));
        assert(part.last() == query_tokens@[i as int]@);
        match tokens.match_of(query_tokens[i].as_str(), Ghost(file)) {
            OutlineMatch::Path => {
                path += 1;
            },
            OutlineMatch::FileName => {
                name += 1;
            },
            OutlineMatch::SymbolToken => {
                symbol += 1;
            },
            OutlineMatch::SymbolSubstring => {
                inside += 1;
            },
            OutlineMatch::Nothing => {},
        }
        i += 1;
    }
    assert(query.subrange(0, query.len() as int) =~= query);
    LocalCandidateScore {
        path_matches: capped_sum(partial, path),
        file_name_matches: name,
        symbol_token_matches: symbol,
        symbol_substring_matches: inside,
        content_token_matches: 0,
        content_substring_matches: 0,
    }
}

// ---------------------------------------------------------------------------
// Contents.

/// The number of tokens that are tokens of a text.
pub open spec fn held_count(query: Seq<Seq<char>>, held: Seq<Seq<char>>) -> nat
    decreases query.len(),
{
    if query.len() == 0 {
        0
    } else {
        held_count(query.drop_last(), held) + (if held.contains(query.last()) {
            1nat
        } else {
            0nat
        })
    }
}

/// The number of tokens that are only parts of tokens of a text.
pub open spec fn inner_count(query: Seq<Seq<char>>, held: Seq<Seq<char>>) -> nat
    decreases query.len(),
{
    if query.len() == 0 {
        0
    } else {
        inner_count(query.drop_last(), held) + (if !held.contains(query.last()) && some_holds(
            held,
            query.last(),
        ) {
            1nat
        } else {
            0nat
        })
    }
}

/// The text that bytes stand for where what is no UTF-8 is replaced.
pub uninterp spec fn lossy_of(bytes: Seq<u8>) -> Seq<char>;

/// `String::from_utf8_lossy` turns bytes into a text; what comes out depends on
/// the bytes alone.
#[verifier::external_body]
fn lossy_text(bytes: &[u8]) -> (r: String)
    ensures
        r@ == lossy_of(bytes@),
{
    String::from_utf8_lossy(bytes).into_owned()
}

/// The score of a text.
pub open spec fn text_score(query: Seq<Seq<char>>, contents: Seq<char>) -> LocalCandidateScore {
    LocalCandidateScore {
        content_token_matches: held_count(query, normalized(contents)) as u64,
        content_substring_matches: inner_count(query, normalized(contents)) as u64,
        ..zero_score()
    }
}

/// The score of the contents of a file. A file with a zero byte holds no text.
pub open spec fn content_score(query: Seq<Seq<char>>, contents: Seq<u8>) -> LocalCandidateScore {
    if contents.contains(0u8) {
        zero_score()
    } else {
        text_score(query, lossy_of(contents))
    }
}

fn holds_zero(bytes: &[u8]) -> (r: bool)
    ensures
        r == bytes@.contains(0u8),
{
    let mut i: usize = 0;
    while i < bytes.len()
        invariant
            i <= bytes.len(),
            forall|j: int| 0 <= j < i ==> bytes@[j] != 0u8,
        decreases bytes.len() - i,
    {
        if bytes[i] == 0 {
            return true;
        }
        i += 1;
    }
    false
}

/// Scores a text.
pub fn text_candidate_score(query_tokens: &Vec<String>, contents: &str) -> (r: LocalCandidateScore)
    ensures
        r == text_score(text::texts(query_tokens@), contents@),
{
    let held = normalized_tokens(contents);
    let ghost held_model = text::texts(held@);
    let ghost query = text::texts(query_tokens@);
    let mut whole: u64 = 0;
    let mut inside: u64 = 0;
    let mut i: usize = 0;
    assert(query.subrange(0, 0) =~= Seq::<Seq<char>>::empty());
    while i < query_tokens.len()
        invariant
            i <= query_tokens.len(),
            query == text::texts(query_tokens@),
            held_model == text::texts(held@),
            whole == held_count(query.subrange(0, i as int), held_model),
            inside == inner_count(query.subrange(0, i as int), held_model),
            whole <= i,
            inside <= i,
        decreases query_tokens.len() - i,
    {
        let ghost part = query.subrange(0, i + 1);
        assert(part.drop_last() =~= query.subrange(0, i as int));
        assert(part.last() == query_tokens@[i as int]@);
        let token = query_tokens[i].as_str();
        if text::strings_contain(&held, token) {
            whole += 1;
        } else if any_holds(&held, token) {
            inside += 1;
        }
        i += 1;
    }
    assert(query.subrange(0, query.len() as int) =~= query);
    LocalCandidateScore {
        path_matches: 0,
        file_name_matches: 0,
        symbol_token_matches: 0,
        symbol_substring_matches: 0,
        content_token_matches: whole,
        content_substring_matches: inside,
    }
}

/// Scores the contents of a file.
pub fn content_candidate_score(query_tokens: &Vec<String>, contents: &[u8]) -> (r:
    LocalCandidateScore)
    ensures
        r == content_score(text::texts(query_tokens@), contents@),
{
    if holds_zero(contents) {
        return LocalCandidateScore::default();
    }
    text_candidate_score(query_tokens, lossy_text(contents).as_str())
}

// ---------------------------------------------------------------------------
// Ranking.

/// Whether a path may stand before another: by its tokens, then as it is.
pub open spec fn path_at_most(a: Seq<char>, b: Seq<char>) -> bool {
    if path_key(a) == path_key(b) {
        text::text_at_most(a, b)
    } else {
        text::text_at_most(path_key(a), path_key(b))
    }
}

/// Whether a file may stand before another in a list: by the tokens of its
/// path, then by its path, then by its symbols.
pub open spec fn listed_at_most(a: FileModel, b: FileModel) -> bool {
    keyed_at_most(path_key(a.path), a, path_key(b.path), b)
}

/// The order of files whose paths have these tokens.
pub open spec fn keyed_at_most(
    a_key: Seq<char>,
    a: FileModel,
    b_key: Seq<char>,
    b: FileModel,
) -> bool {
    if a_key != b_key {
        text::text_at_most(a_key, b_key)
    } else if a.path != b.path {
        text::text_at_most(a.path, b.path)
    } else {
        text::text_at_most(a.symbols, b.symbols)
    }
}

pub open spec fn listing_order() -> spec_fn(FileModel, FileModel) -> bool {
    |a: FileModel, b: FileModel| listed_at_most(a, b)
}

/// A sorted list without the files whose path was there already.
pub open spec fn deduped(files: Seq<FileModel>) -> Seq<FileModel>
    decreases files.len(),
{
    if files.len() == 0 {
        Seq::empty()
    } else {
        let init = deduped(files.drop_last());
        if init.len() > 0 && init.last().path == files.last().path {
            init
        } else {
            init.push(files.last())
        }
    }
}

/// The score that was recorded for a path.
pub open spec fn recorded_score(
    scores: Seq<(Seq<char>, LocalCandidateScore)>,
    path: Seq<char>,
) -> LocalCandidateScore
    decreases scores.len(),
{
    if scores.len() == 0 {
        zero_score()
    } else if scores[0].0 == path {
        scores[0].1
    } else {
        recorded_score(scores.subrange(1, scores.len() as int), path)
    }
}

/// The score of a file by its outline and its contents.
pub open spec fn total_score(
    query: Seq<Seq<char>>,
    partials: Seq<Seq<char>>,
    scores: Seq<(Seq<char>, LocalCandidateScore)>,
    file: FileModel,
) -> LocalCandidateScore {
    score_sum(outline_score(query, partials, file), recorded_score(scores, file.path))
}

/// Whether a file may stand before another: by score, then by path.
pub open spec fn ranked_at_most(
    a_score: LocalCandidateScore,
    a: FileModel,
    b_score: LocalCandidateScore,
    b: FileModel,
) -> bool {
    if a_score == b_score {
        path_at_most(a.path, b.path)
    } else {
        outranks(a_score, b_score)
    }
}

pub open spec fn rank_order(
    query: Seq<Seq<char>>,
    partials: Seq<Seq<char>>,
    scores: Seq<(Seq<char>, LocalCandidateScore)>,
) -> spec_fn(FileModel, FileModel) -> bool {
    |a: FileModel, b: FileModel|
        ranked_at_most(
            total_score(query, partials, scores, a),
            a,
            total_score(query, partials, scores, b),
            b,
        )
}

/// The files that match in any way.
pub open spec fn relevant(
    query: Seq<Seq<char>>,
    partials: Seq<Seq<char>>,
    scores: Seq<(Seq<char>, LocalCandidateScore)>,
) -> spec_fn(FileModel) -> bool {
    |file: FileModel| total_score(query, partials, scores, file) != zero_score()
}

/// The first elements of a list.
pub open spec fn first_of<T>(s: Seq<T>, max: int) -> Seq<T> {
    if s.len() <= max {
        s
    } else {
        s.subrange(0, max)
    }
}

/// The files that a search returns: those that match, the best first. Without
/// a query only a single file is an answer.
pub open spec fn ranked_files(
    query: Seq<char>,
    partials: Seq<Seq<char>>,
    candidates: Seq<FileModel>,
    scores: Seq<(Seq<char>, LocalCandidateScore)>,
) -> Seq<FileModel> {
    let unique = deduped(order::sorted_by(candidates, listing_order()));
    let tokens = normalized(query);
    if tokens.len() == 0 {
        if unique.len() < 2 {
            unique
        } else {
            Seq::empty()
        }
    } else {
        first_of(
            order::sorted_by(
                unique.filter(relevant(tokens, partials, scores)),
                rank_order(tokens, partials, scores),
            ),
            LOCAL_OUTLINE_RESULT_LIMIT as int,
        )
    }
}

/// Facts about three texts from which lexicographic orders are put together.
proof fn lemma_text_order(x: Seq<char>, y: Seq<char>, z: Seq<char>)
    ensures
        text::text_at_most(x, y) || text::text_at_most(y, x),
        text::text_at_most(x, y) && text::text_at_most(y, x) ==> x == y,
        text::text_at_most(x, y) && text::text_at_most(y, z) ==> text::text_at_most(x, z),
{
    text::lemma_text_total(x, y);
    if text::text_at_most(x, y) && text::text_at_most(y, x) {
        text::lemma_text_antisymmetric(x, y);
    }
    if text::text_at_most(x, y) && text::text_at_most(y, z) {
        text::lemma_text_transitive(x, y, z);
    }
}

fn keyed_is_at_most(a_key: &str, a: &FileContext, b_key: &str, b: &FileContext) -> (r: bool)
    ensures
        r == keyed_at_most(a_key@, a@, b_key@, b@),
{
    if !text::same_text(a_key, b_key) {
        text::is_text_at_most(a_key, b_key)
    } else if !text::same_text(a.path.as_str(), b.path.as_str()) {
        text::is_text_at_most(a.path.as_str(), b.path.as_str())
    } else {
        text::is_text_at_most(a.symbols.as_str(), b.symbols.as_str())
    }
}

/// A file with the tokens of its path.
struct KeyedFile {
    key: String,
    file: FileContext,
}

impl KeyedFile {
    spec fn wf(&self) -> bool {
        self.key@ == path_key(self.file@.path)
    }

    fn new(file: FileContext) -> (r: Self)
        ensures
            r.wf(),
            r.file == file,
    {
        KeyedFile { key: normalized_path(file.path.as_str()), file }
    }
}

impl Ordered for KeyedFile {
    closed spec fn at_most(&self, other: &Self) -> bool {
        keyed_at_most(self.key@, self.file@, other.key@, other.file@)
    }

    proof fn order_total(a: &Self, b: &Self) {
        text::lemma_text_total(a.key@, b.key@);
        text::lemma_text_total(a.file@.path, b.file@.path);
        text::lemma_text_total(a.file@.symbols, b.file@.symbols);
    }

    proof fn order_transitive(a: &Self, b: &Self, c: &Self) {
        lemma_text_order(a.key@, b.key@, c.key@);
        lemma_text_order(a.file@.path, b.file@.path, c.file@.path);
        lemma_text_order(a.file@.symbols, b.file@.symbols, c.file@.symbols);
    }

    fn is_at_most(&self, other: &Self) -> (r: bool) {
        keyed_is_at_most(self.key.as_str(), &self.file, other.key.as_str(), &other.file)
    }
}

spec fn keyed_view() -> spec_fn(KeyedFile) -> FileModel {
    |keyed: KeyedFile| keyed.file@
}

/// Puts files in the order of their paths.
pub fn sort_candidates(candidates: Vec<FileContext>) -> (r: Vec<FileContext>)
    ensures
        file_models(r@) == order::sorted_by(file_models(candidates@), listing_order()),
{
    let ghost given = file_models(candidates@);
    let mut keyed: Vec<KeyedFile> = Vec::new();
    let mut i: usize = 0;
    while i < candidates.len()
        invariant
            i <= candidates.len(),
            keyed.len() == i,
            forall|j: int|
                0 <= j < i ==> (#[trigger] keyed@[j]).wf() && keyed@[j].file@ == candidates@[j]@,
        decreases candidates.len() - i,
    {
        keyed.push(KeyedFile::new(candidates[i].clone()));
        i += 1;
    }
    let ghost unsorted = keyed@;
    proof {
        assert(unsorted.map_values(keyed_view()) =~= given);
        assert forall|x: KeyedFile, y: KeyedFile|
            unsorted.contains(x) && unsorted.contains(y) implies #[trigger] x.at_most(&y)
            == listing_order()(keyed_view()(x), keyed_view()(y)) by {
            let a = choose|a: int| 0 <= a < unsorted.len() && unsorted[a] == x;
            let b = choose|b: int| 0 <= b < unsorted.len() && unsorted[b] == y;
            assert(unsorted[a].wf() && unsorted[b].wf());
        }
        order::lemma_sorted_by(unsorted, keyed_view(), listing_order());
    }
    let sorted = order::sort(keyed);
    let mut out: Vec<FileContext> = Vec::new();
    let mut k: usize = 0;
    while k < sorted.len()
        invariant
            k <= sorted.len(),
            out.len() == k,
            forall|j: int| 0 <= j < k ==> (#[trigger] out@[j])@ == sorted@[j].file@,
        decreases sorted.len() - k,
    {
        out.push(sorted[k].file.clone());
        k += 1;
    }
    assert(file_models(out@) =~= sorted@.map_values(keyed_view()));
    out
}

fn dedup_candidates(candidates: &Vec<FileContext>) -> (r: Vec<FileContext>)
    ensures
        file_models(r@) == deduped(file_models(candidates@)),
{
    let ghost all = file_models(candidates@);
    let mut out: Vec<FileContext> = Vec::new();
    let mut i: usize = 0;
    assert(all.subrange(0, 0) =~= Seq::<FileModel>::empty());
    assert(file_models(out@) =~= Seq::<FileModel>::empty());
    while i < candidates.len()
        invariant
            i <= candidates.len(),
            all == file_models(candidates@),
            file_models(out@) == deduped(all.subrange(0, i as int)),
        decreases candidates.len() - i,
    {
        let ghost part = all.subrange(0, i + 1);
        let ghost before = file_models(out@);
        assert(part.drop_last() =~= all.subrange(0, i as int));
        assert(part.last() == candidates@[i as int]@);
        let n: usize = out.len();
        assert(n > 0 ==> before.last() == out@[n - 1]@);
        if n == 0 || !text::same_text(out[n - 1].path.as_str(), candidates[i].path.as_str()) {
            out.push(candidates[i].clone());
            assert(file_models(out@) =~= before.push(candidates@[i as int]@));
        }
        i += 1;
    }
    assert(all.subrange(0, all.len() as int) =~= all);
    out
}

pub open spec fn score_models(v: Seq<(String, LocalCandidateScore)>) -> Seq<
    (Seq<char>, LocalCandidateScore),
> {
    Seq::new(v.len(), |i: int| (v[i].0@, v[i].1))
}

fn score_for(scores: &Vec<(String, LocalCandidateScore)>, path: &str) -> (r: LocalCandidateScore)
    ensures
        r == recorded_score(score_models(scores@), path@),
{
    let ghost all = score_models(scores@);
    let mut i: usize = 0;
    assert(all.subrange(0, all.len() as int) =~= all);
    while i < scores.len()
        invariant
            i <= scores.len(),
            all == score_models(scores@),
            recorded_score(all, path@) == recorded_score(
                all.subrange(i as int, all.len() as int),
                path@,
            ),
        decreases scores.len() - i,
    {
        let ghost rest = all.subrange(i as int, all.len() as int);
        assert(rest[0] == (scores@[i as int].0@, scores@[i as int].1));
        if text::same_text(scores[i].0.as_str(), path) {
            return scores[i].1;
        }
        assert(rest.subrange(1, rest.len() as int) =~= all.subrange(i + 1, all.len() as int));
        i += 1;
    }
    LocalCandidateScore::default()
}

/// A file with its score and the tokens of its path.
struct ScoredFile {
    score: LocalCandidateScore,
    key: String,
    file: FileContext,
}

spec fn scored_at_most(
    a_score: LocalCandidateScore,
    a_key: Seq<char>,
    a_path: Seq<char>,
    b_score: LocalCandidateScore,
    b_key: Seq<char>,
    b_path: Seq<char>,
) -> bool {
    if a_score != b_score {
        outranks(a_score, b_score)
    } else if a_key != b_key {
        text::text_at_most(a_key, b_key)
    } else {
        text::text_at_most(a_path, b_path)
    }
}

impl Ordered for ScoredFile {
    closed spec fn at_most(&self, other: &Self) -> bool {
        scored_at_most(
            self.score,
            self.key@,
            self.file@.path,
            other.score,
            other.key@,
            other.file@.path,
        )
    }

    proof fn order_total(a: &Self, b: &Self) {
        text::lemma_text_total(a.key@, b.key@);
        text::lemma_text_total(a.file@.path, b.file@.path);
    }

    proof fn order_transitive(a: &Self, b: &Self, c: &Self) {
        lemma_text_order(a.key@, b.key@, c.key@);
        lemma_text_order(a.file@.path, b.file@.path, c.file@.path);
    }

    fn is_at_most(&self, other: &Self) -> (r: bool) {
        if self.score != other.score {
            score_outranks(&self.score, &other.score)
        } else if !text::same_text(self.key.as_str(), other.key.as_str()) {
            text::is_text_at_most(self.key.as_str(), other.key.as_str())
        } else {
            text::is_text_at_most(self.file.path.as_str(), other.file.path.as_str())
        }
    }
}

spec fn scored_view() -> spec_fn(ScoredFile) -> FileModel {
    |scored: ScoredFile| scored.file@
}

/// The scored files that match in any way.
fn score_relevant(
    query: &Vec<String>,
    partials: &Vec<String>,
    scores: &Vec<(String, LocalCandidateScore)>,
    files: &Vec<FileContext>,
) -> (r: Vec<ScoredFile>)
    ensures
        r@.map_values(scored_view()) == file_models(files@).filter(
            relevant(text::texts(query@), text::texts(partials@), score_models(scores@)),
        ),
        forall|j: int|
            0 <= j < r@.len() ==> (#[trigger] r@[j]).key@ == path_key(r@[j].file@.path)
                && r@[j].score == total_score(
                text::texts(query@),
                text::texts(partials@),
                score_models(scores@),
                r@[j].file@,
            ),
{
    let ghost all = file_models(files@);
    let ghost keep = relevant(text::texts(query@), text::texts(partials@), score_models(scores@));
    let mut out: Vec<ScoredFile> = Vec::new();
    let mut i: usize = 0;
    proof {
        reveal(Seq::filter);
        assert(all.subrange(0, 0) =~= Seq::<FileModel>::empty());
        assert(out@.map_values(scored_view()) =~= all.subrange(0, 0).filter(keep));
    }
    while i < files.len()
        invariant
            i <= files.len(),
            all == file_models(files@),
            keep == relevant(
                text::texts(query@),
                text::texts(partials@),
                score_models(scores@),
            ),
            out@.map_values(scored_view()) == all.subrange(0, i as int).filter(keep),
            forall|j: int|
                0 <= j < out@.len() ==> (#[trigger] out@[j]).key@ == path_key(out@[j].file@.path)
                    && out@[j].score == total_score(
                    text::texts(query@),
                    text::texts(partials@),
                    score_models(scores@),
                    out@[j].file@,
                ),
        decreases files.len() - i,
    {
        let file = &files[i];
        let ghost part = all.subrange(0, i + 1);
        assert(part.drop_last() =~= all.subrange(0, i as int));
        assert(part.last() == file@);
        proof {
            reveal(Seq::filter);
        }
        let outline = outline_candidate_score(query, partials, file);
        let recorded = score_for(scores, file.path.as_str());
        let score = sum_scores(&outline, &recorded);
        assert(keep(file@) == (score != zero_score()));
        if score != LocalCandidateScore::default() {
            let ghost before = out@.map_values(scored_view());
            out.push(
                ScoredFile {
                    score,
                    key: normalized_path(file.path.as_str()),
                    file: file.clone(),
                },
            );
            assert(out@.map_values(scored_view()) =~= before.push(file@));
        }
        i += 1;
    }
    assert(all.subrange(0, all.len() as int) =~= all);
    out
}

/// Ranks the files of an outline for a query.
pub fn rank_local_outline_candidates(
    query: &str,
    partial_path_segments: &Vec<String>,
    candidates: Vec<FileContext>,
    content_scores: &Vec<(String, LocalCandidateScore)>,
) -> (r: Vec<FileContext>)
    ensures
        file_models(r@) == ranked_files(
            query@,
            text::texts(partial_path_segments@),
            file_models(candidates@),
            score_models(content_scores@),
        ),
{
    let sorted = sort_candidates(candidates);
    let unique = dedup_candidates(&sorted);
    let query_tokens = normalized_tokens(query);
    let ghost q = text::texts(query_tokens@);
    let ghost partials = text::texts(partial_path_segments@);
    let ghost scores = score_models(content_scores@);
    assert(q.len() == query_tokens.len());
    assert(file_models(unique@).len() == unique.len());
    if query_tokens.len() == 0 {
        if unique.len() < 2 {
            return unique;
        }
        let none: Vec<FileContext> = Vec::new();
        assert(file_models(none@) =~= Seq::<FileModel>::empty());
        return none;
    }
    let scored = score_relevant(&query_tokens, partial_path_segments, content_scores, &unique);
    let ghost unsorted = scored@;
    proof {
        assert forall|x: ScoredFile, y: ScoredFile|
            unsorted.contains(x) && unsorted.contains(y) implies #[trigger] x.at_most(&y)
            == rank_order(q, partials, scores)(scored_view()(x), scored_view()(y)) by {
            let a = choose|a: int| 0 <= a < unsorted.len() && unsorted[a] == x;
            let b = choose|b: int| 0 <= b < unsorted.len() && unsorted[b] == y;
            assert(unsorted[a].key@ == path_key(unsorted[a].file@.path));
            assert(unsorted[b].key@ == path_key(unsorted[b].file@.path));
        }
        order::lemma_sorted_by(unsorted, scored_view(), rank_order(q, partials, scores));
    }
    let ranked = order::sort(scored);
    let ghost all = ranked@.map_values(scored_view());
    let mut out: Vec<FileContext> = Vec::new();
    let mut i: usize = 0;
    while i < ranked.len() && i < LOCAL_OUTLINE_RESULT_LIMIT
        invariant
            i <= ranked.len(),
            i <= LOCAL_OUTLINE_RESULT_LIMIT,
            out.len() == i,
            forall|j: int| 0 <= j < i ==> (#[trigger] out@[j])@ == ranked@[j].file@,
        decreases ranked.len() - i,
    {
        out.push(ranked[i].file.clone());
        i += 1;
    }
    assert(file_models(out@) =~= first_of(all, LOCAL_OUTLINE_RESULT_LIMIT as int));
    out
}

// ---------------------------------------------------------------------------
// Files on disk.

/// A file of an outline that was found on disk.
#[derive(Debug)]
pub struct ValidatedLocalCandidate<S = String> {
    pub context: FileContext<S>,
    pub absolute_path: S,
}

pub type ValidatedModel = ValidatedLocalCandidate<Seq<char>>;

impl View for ValidatedLocalCandidate<String> {
    type V = ValidatedModel;

    open spec fn view(&self) -> ValidatedModel {
        ValidatedLocalCandidate { context: self.context@, absolute_path: self.absolute_path@ }
    }
}

pub open spec fn validated_models(v: Seq<ValidatedLocalCandidate>) -> Seq<ValidatedModel> {
    Seq::new(v.len(), |i: int| v[i]@)
}

/// What the path of a file resolved to, and whether a regular file is there.
pub struct CandidateProbe<S = String> {
    pub context: FileContext<S>,
    pub resolved: Option<S>,
    pub is_file: bool,
}

pub type ProbeModel = CandidateProbe<Seq<char>>;

impl View for CandidateProbe<String> {
    type V = ProbeModel;

    open spec fn view(&self) -> ProbeModel {
        CandidateProbe {
            context: self.context@,
            resolved: text::text_opt(self.resolved),
            is_file: self.is_file,
        }
    }
}

impl Clone for CandidateProbe<String> {
    fn clone(&self) -> (r: Self)
        ensures
            r@ == self@,
    {
        CandidateProbe {
            context: self.context.clone(),
            resolved: text::clone_opt(&self.resolved),
            is_file: self.is_file,
        }
    }
}

pub open spec fn probe_models(v: Seq<CandidateProbe>) -> Seq<ProbeModel> {
    Seq::new(v.len(), |i: int| v[i]@)
}

/// The order in which the paths of an outline are looked at.
pub open spec fn probe_order() -> spec_fn(ProbeModel, ProbeModel) -> bool {
    |a: ProbeModel, b: ProbeModel| listed_at_most(a.context, b.context)
}

/// A probe with the tokens of its path.
struct KeyedProbe {
    key: String,
    probe: CandidateProbe,
}

impl KeyedProbe {
    spec fn wf(&self) -> bool {
        self.key@ == path_key(self.probe@.context.path)
    }
}

impl Ordered for KeyedProbe {
    closed spec fn at_most(&self, other: &Self) -> bool {
        keyed_at_most(self.key@, self.probe@.context, other.key@, other.probe@.context)
    }

    proof fn order_total(a: &Self, b: &Self) {
        text::lemma_text_total(a.key@, b.key@);
        text::lemma_text_total(a.probe@.context.path, b.probe@.context.path);
        text::lemma_text_total(a.probe@.context.symbols, b.probe@.context.symbols);
    }

    proof fn order_transitive(a: &Self, b: &Self, c: &Self) {
        lemma_text_order(a.key@, b.key@, c.key@);
        lemma_text_order(a.probe@.context.path, b.probe@.context.path, c.probe@.context.path);
        lemma_text_order(
            a.probe@.context.symbols,
            b.probe@.context.symbols,
            c.probe@.context.symbols,
        );
    }

    fn is_at_most(&self, other: &Self) -> (r: bool) {
        keyed_is_at_most(
            self.key.as_str(),
            &self.probe.context,
            other.key.as_str(),
            &other.probe.context,
        )
    }
}

spec fn probe_view() -> spec_fn(KeyedProbe) -> ProbeModel {
    |keyed: KeyedProbe| keyed.probe@
}

/// Puts probes in the order of their paths.
fn sort_probes(probes: &Vec<CandidateProbe>) -> (r: Vec<KeyedProbe>)
    ensures
        r@.map_values(probe_view()) == order::sorted_by(probe_models(probes@), probe_order()),
{
    let mut keyed: Vec<KeyedProbe> = Vec::new();
    let mut i: usize = 0;
    while i < probes.len()
        invariant
            i <= probes.len(),
            keyed.len() == i,
            forall|j: int|
                0 <= j < i ==> (#[trigger] keyed@[j]).wf() && keyed@[j].probe@ == probes@[j]@,
        decreases probes.len() - i,
    {
        let probe = &probes[i];
        keyed.push(
            KeyedProbe {
                key: normalized_path(probe.context.path.as_str()),
                probe: probe.clone(),
            },
        );
        i += 1;
    }
    let ghost unsorted = keyed@;
    proof {
        assert(unsorted.map_values(probe_view()) =~= probe_models(probes@));
        assert forall|x: KeyedProbe, y: KeyedProbe|
            unsorted.contains(x) && unsorted.contains(y) implies #[trigger] x.at_most(&y)
            == probe_order()(probe_view()(x), probe_view()(y)) by {
            let a = choose|a: int| 0 <= a < unsorted.len() && unsorted[a] == x;
            let b = choose|b: int| 0 <= b < unsorted.len() && unsorted[b] == y;
            assert(unsorted[a].wf() && unsorted[b].wf());
        }
        order::lemma_sorted_by(unsorted, probe_view(), probe_order());
    }
    order::sort(keyed)
}

/// The path of a file that is there and lies in the codebase.
pub open spec fn confined(root: Seq<char>, resolved: Option<Seq<char>>, is_file: bool) -> Option<
    Seq<char>,
> {
    match resolved {
        Some(path) => if is_file && paths::is_within(path, root) {
            Some(path)
        } else {
            None
        },
        None => None,
    }
}

/// Checks that a path that was just resolved is that of a file in the codebase.
pub fn revalidate(root: &str, resolved: Option<String>, is_file: bool) -> (r: Option<String>)
    ensures
        text::text_opt(r) == confined(root@, text::text_opt(resolved), is_file),
{
    match resolved {
        Some(path) => if is_file && paths::path_is_within(path.as_str(), root) {
            Some(path)
        } else {
            None
        },
        None => None,
    }
}

/// Whether a path on disk is taken.
pub open spec fn is_taken(found: Seq<ValidatedModel>, path: Seq<char>) -> bool {
    exists|i: int| 0 <= i < found.len() && (#[trigger] found[i]).absolute_path == path
}

/// The files that are there and lie in the codebase, each file on disk once
/// under the first path that leads to it.
pub open spec fn validated(root: Seq<char>, probes: Seq<ProbeModel>) -> Seq<ValidatedModel>
    decreases probes.len(),
{
    if probes.len() == 0 {
        Seq::empty()
    } else {
        let init = validated(root, probes.drop_last());
        let last = probes.last();
        match confined(root, last.resolved, last.is_file) {
            Some(path) => if is_taken(init, path) {
                init
            } else {
                init.push(ValidatedLocalCandidate { context: last.context, absolute_path: path })
            },
            None => init,
        }
    }
}

/// The files of an outline that are there and lie in the codebase. Where several
/// paths lead to one file, the first in the order of the paths stands for it.
pub open spec fn validated_files(root: Seq<char>, probes: Seq<ProbeModel>) -> Seq<ValidatedModel> {
    validated(root, order::sorted_by(probes, probe_order()))
}

fn path_is_taken(found: &Vec<ValidatedLocalCandidate>, path: &str) -> (r: bool)
    ensures
        r == is_taken(validated_models(found@), path@),
{
    let ghost all = validated_models(found@);
    let mut i: usize = 0;
    while i < found.len()
        invariant
            i <= found.len(),
            all == validated_models(found@),
            forall|j: int| 0 <= j < i ==> (#[trigger] all[j]).absolute_path != path@,
        decreases found.len() - i,
    {
        assert(all[i as int] == found@[i as int]@);
        if text::same_text(found[i].absolute_path.as_str(), path) {
            return true;
        }
        i += 1;
    }
    false
}

/// Keeps the files of an outline that are there and lie in the codebase.
pub fn validated_local_candidates(root: &str, probes: &Vec<CandidateProbe>) -> (r: Vec<
    ValidatedLocalCandidate,
>)
    ensures
        validated_models(r@) == validated_files(root@, probe_models(probes@)),
{
    let sorted = sort_probes(probes);
    let ghost all = sorted@.map_values(probe_view());
    let mut out: Vec<ValidatedLocalCandidate> = Vec::new();
    let mut i: usize = 0;
    assert(all.subrange(0, 0) =~= Seq::<ProbeModel>::empty());
    assert(validated_models(out@) =~= Seq::<ValidatedModel>::empty());
    while i < sorted.len()
        invariant
            i <= sorted.len(),
            all == sorted@.map_values(probe_view()),
            validated_models(out@) == validated(root@, all.subrange(0, i as int)),
        decreases sorted.len() - i,
    {
        let ghost part = all.subrange(0, i + 1);
        assert(part.drop_last() =~= all.subrange(0, i as int));
        assert(part.last() == sorted@[i as int].probe@);
        let probe = &sorted[i].probe;
        let path = revalidate(root, text::clone_opt(&probe.resolved), probe.is_file);
        if let Some(path) = path {
            if !path_is_taken(&out, path.as_str()) {
                let ghost before = validated_models(out@);
                let found = ValidatedLocalCandidate {
                    context: probe.context.clone(),
                    absolute_path: path,
                };
                let ghost model = found@;
                out.push(found);
                assert(validated_models(out@) =~= before.push(model));
            }
        }
        i += 1;
    }
    assert(all.subrange(0, all.len() as int) =~= all);
    out
}

/// The files whose contents are searched, in the order of the search.
pub open spec fn searched(
    query: Seq<char>,
    partials: Seq<Seq<char>>,
    files: Seq<FileModel>,
) -> Seq<FileModel> {
    let tokens = normalized(query);
    if tokens.len() == 0 {
        Seq::empty()
    } else {
        first_of(
            order::sorted_by(files, rank_order(tokens, partials, Seq::empty())),
            LOCAL_CONTENT_SEARCH_MAX_FILES as int,
        )
    }
}

/// Chooses the files whose contents are searched: the best ones by their
/// outline.
pub fn search_order(
    query: &str,
    partial_path_segments: &Vec<String>,
    files: &Vec<FileContext>,
) -> (r: Vec<FileContext>)
    ensures
        file_models(r@) == searched(
            query@,
            text::texts(partial_path_segments@),
            file_models(files@),
        ),
        r.len() <= LOCAL_CONTENT_SEARCH_MAX_FILES,
{
    let query_tokens = normalized_tokens(query);
    let ghost q = text::texts(query_tokens@);
    let ghost partials = text::texts(partial_path_segments@);
    let ghost none = Seq::<(Seq<char>, LocalCandidateScore)>::empty();
    let ghost given = file_models(files@);
    assert(q.len() == query_tokens.len());
    let mut out: Vec<FileContext> = Vec::new();
    if query_tokens.len() == 0 {
        assert(file_models(out@) =~= Seq::<FileModel>::empty());
        return out;
    }
    let mut scored: Vec<ScoredFile> = Vec::new();
    let mut i: usize = 0;
    while i < files.len()
        invariant
            i <= files.len(),
            scored.len() == i,
            q == text::texts(query_tokens@),
            partials == text::texts(partial_path_segments@),
            none == Seq::<(Seq<char>, LocalCandidateScore)>::empty(),
            forall|j: int|
                0 <= j < i ==> (#[trigger] scored@[j]).file@ == files@[j]@ && scored@[j].key@
                    == path_key(files@[j]@.path) && scored@[j].score == total_score(
                    q,
                    partials,
                    none,
                    files@[j]@,
                ),
        decreases files.len() - i,
    {
        let file = &files[i];
        let score = outline_candidate_score(&query_tokens, partial_path_segments, file);
        assert(score_sum(score, zero_score()) == score);
        scored.push(
            ScoredFile { score, key: normalized_path(file.path.as_str()), file: file.clone() },
        );
        i += 1;
    }
    let ghost unsorted = scored@;
    proof {
        assert(unsorted.map_values(scored_view()) =~= given);
        assert forall|x: ScoredFile, y: ScoredFile|
            unsorted.contains(x) && unsorted.contains(y) implies #[trigger] x.at_most(&y)
            == rank_order(q, partials, none)(scored_view()(x), scored_view()(y)) by {
            let a = choose|a: int| 0 <= a < unsorted.len() && unsorted[a] == x;
            let b = choose|b: int| 0 <= b < unsorted.len() && unsorted[b] == y;
            assert(unsorted[a].file@ == files@[a]@);
            assert(unsorted[b].file@ == files@[b]@);
        }
        order::lemma_sorted_by(unsorted, scored_view(), rank_order(q, partials, none));
    }
    let ranked = order::sort(scored);
    let ghost all = ranked@.map_values(scored_view());
    let mut k: usize = 0;
    while k < ranked.len() && k < LOCAL_CONTENT_SEARCH_MAX_FILES
        invariant
            k <= ranked.len(),
            k <= LOCAL_CONTENT_SEARCH_MAX_FILES,
            out.len() == k,
            forall|j: int| 0 <= j < k ==> (#[trigger] out@[j])@ == ranked@[j].file@,
        decreases ranked.len() - k,
    {
        out.push(ranked[k].file.clone());
        k += 1;
    }
    assert(file_models(out@) =~= first_of(all, LOCAL_CONTENT_SEARCH_MAX_FILES as int));
    out
}

/// A file that was searched, with its contents where it could be read.
pub struct SearchedFile {
    pub path: String,
    pub contents: Option<Vec<u8>>,
}

/// The part of a file that is searched: its start.
pub open spec fn searched_part(contents: Seq<u8>) -> Seq<u8> {
    if contents.len() <= LOCAL_CONTENT_SEARCH_MAX_BYTES_PER_FILE {
        contents
    } else {
        contents.subrange(0, LOCAL_CONTENT_SEARCH_MAX_BYTES_PER_FILE as int)
    }
}

/// The scores of the searched files that match.
pub open spec fn evidence(query: Seq<Seq<char>>, files: Seq<SearchedFile>) -> Seq<
    (Seq<char>, LocalCandidateScore),
>
    decreases files.len(),
{
    if files.len() == 0 {
        Seq::empty()
    } else {
        let init = evidence(query, files.drop_last());
        match files.last().contents {
            Some(contents) => if content_score(query, searched_part(contents@)) != zero_score() {
                init.push(
                    (files.last().path@, content_score(query, searched_part(contents@))),
                )
            } else {
                init
            },
            None => init,
        }
    }
}

/// Scores the contents of the searched files.
pub fn bounded_content_scores(query: &str, files: &Vec<SearchedFile>) -> (r: Vec<
    (String, LocalCandidateScore),
>)
    ensures
        score_models(r@) == evidence(normalized(query@), files@),
{
    let query_tokens = normalized_tokens(query);
    let ghost q = text::texts(query_tokens@);
    let mut out: Vec<(String, LocalCandidateScore)> = Vec::new();
    let mut i: usize = 0;
    assert(files@.subrange(0, 0) =~= Seq::<SearchedFile>::empty());
    assert(score_models(out@) =~= Seq::<(Seq<char>, LocalCandidateScore)>::empty());
    while i < files.len()
        invariant
            i <= files.len(),
            q == text::texts(query_tokens@),
            score_models(out@) == evidence(q, files@.subrange(0, i as int)),
        decreases files.len() - i,
    {
        let ghost part = files@.subrange(0, i + 1);
        assert(part.drop_last() =~= files@.subrange(0, i as int));
        assert(part.last() == files@[i as int]);
        if let Some(contents) = &files[i].contents {
            let end: usize = if contents.len() <= LOCAL_CONTENT_SEARCH_MAX_BYTES_PER_FILE {
                contents.len()
            } else {
                LOCAL_CONTENT_SEARCH_MAX_BYTES_PER_FILE
            };
            let start = vstd::slice::slice_subrange(contents.as_slice(), 0, end);
            assert(start@ =~= searched_part(contents@));
            let score = content_candidate_score(&query_tokens, start);
            if score != LocalCandidateScore::default() {
                let ghost before = score_models(out@);
                out.push((files[i].path.clone(), score));
                assert(score_models(out@) =~= before.push((files@[i as int].path@, score)));
            }
        }
        i += 1;
    }
    assert(files@.subrange(0, files@.len() as int) =~= files@);
    out
}

/// The path on disk of a file, by its path in the outline.
pub open spec fn disk_path(found: Seq<ValidatedModel>, path: Seq<char>) -> Option<Seq<char>>
    decreases found.len(),
{
    if found.len() == 0 {
        None
    } else if found[0].context.path == path {
        Some(found[0].absolute_path)
    } else {
        disk_path(found.subrange(1, found.len() as int), path)
    }
}

/// Finds the path on disk of a file that was ranked.
pub fn absolute_path_of(found: &Vec<ValidatedLocalCandidate>, path: &str) -> (r: Option<String>)
    ensures
        text::text_opt(r) == disk_path(validated_models(found@), path@),
{
    let ghost all = validated_models(found@);
    let mut i: usize = 0;
    assert(all.subrange(0, all.len() as int) =~= all);
    while i < found.len()
        invariant
            i <= found.len(),
            all == validated_models(found@),
            disk_path(all, path@) == disk_path(
                all.subrange(i as int, all.len() as int),
                path@,
            ),
        decreases found.len() - i,
    {
        let ghost rest = all.subrange(i as int, all.len() as int);
        assert(rest[0] == found@[i as int]@);
        if text::same_text(found[i].context.path.as_str(), path) {
            return Some(found[i].absolute_path.clone());
        }
        assert(rest.subrange(1, rest.len() as int) =~= all.subrange(i + 1, all.len() as int));
        i += 1;
    }
    None
}

/// The paths on disk of the files that were ranked.
pub open spec fn disk_paths(found: Seq<ValidatedModel>, ranked: Seq<FileModel>) -> Seq<Seq<char>>
    decreases ranked.len(),
{
    if ranked.len() == 0 {
        Seq::empty()
    } else {
        let init = disk_paths(found, ranked.drop_last());
        match disk_path(found, ranked.last().path) {
            Some(path) => init.push(path),
            None => init,
        }
    }
}

/// The files of an outline that were found on disk.
pub open spec fn found_contexts(found: Seq<ValidatedModel>) -> Seq<FileModel> {
    Seq::new(found.len(), |i: int| found[i].context)
}

/// The paths on disk that answer a query, the best first.
pub open spec fn located(
    query: Seq<char>,
    partials: Seq<Seq<char>>,
    found: Seq<ValidatedModel>,
    searched: Seq<SearchedFile>,
) -> Seq<Seq<char>> {
    disk_paths(
        found,
        ranked_files(query, partials, found_contexts(found), evidence(normalized(query), searched)),
    )
}

/// The files of an outline that were found on disk, in the form in which they
/// are searched and ranked.
pub fn contexts_of(found: &Vec<ValidatedLocalCandidate>) -> (r: Vec<FileContext>)
    ensures
        file_models(r@) == found_contexts(validated_models(found@)),
{
    let mut out: Vec<FileContext> = Vec::new();
    let mut i: usize = 0;
    while i < found.len()
        invariant
            i <= found.len(),
            out.len() == i,
            forall|j: int| 0 <= j < i ==> (#[trigger] out@[j])@ == found@[j]@.context,
        decreases found.len() - i,
    {
        out.push(found[i].context.clone());
        i += 1;
    }
    assert(file_models(out@) =~= found_contexts(validated_models(found@)));
    out
}

/// Answers a query from the files that were found on disk and from the contents
/// of those that were searched.
pub fn local_outline_locations_from_candidates(
    query: &str,
    partial_path_segments: &Vec<String>,
    found: &Vec<ValidatedLocalCandidate>,
    searched: &Vec<SearchedFile>,
) -> (r: Vec<String>)
    ensures
        text::texts(r@) == located(
            query@,
            text::texts(partial_path_segments@),
            validated_models(found@),
            searched@,
        ),
{
    let scores = bounded_content_scores(query, searched);
    let ranked = rank_local_outline_candidates(
        query,
        partial_path_segments,
        contexts_of(found),
        &scores,
    );
    let ghost all = file_models(ranked@);
    let ghost models = validated_models(found@);
    let mut out: Vec<String> = Vec::new();
    let mut i: usize = 0;
    assert(all.subrange(0, 0) =~= Seq::<FileModel>::empty());
    assert(text::texts(out@) =~= Seq::<Seq<char>>::empty());
    while i < ranked.len()
        invariant
            i <= ranked.len(),
            all == file_models(ranked@),
            models == validated_models(found@),
            text::texts(out@) == disk_paths(models, all.subrange(0, i as int)),
        decreases ranked.len() - i,
    {
        let ghost part = all.subrange(0, i + 1);
        assert(part.drop_last() =~= all.subrange(0, i as int));
        assert(part.last() == ranked@[i as int]@);
        if let Some(path) = absolute_path_of(found, ranked[i].path.as_str()) {
            let ghost before = text::texts(out@);
            out.push(path);
            assert(text::texts(out@) =~= before.push(path@));
        }
        i += 1;
    }
    assert(all.subrange(0, all.len() as int) =~= all);
    out
}

// ---------------------------------------------------------------------------
// Requests.

/// How far the outline of a codebase is.
#[derive(Clone, Copy, Debug, PartialEq, Eq, Structural)]
pub enum OutlineStatus {
    Complete,
    Pending,
    Failed,
}

/// Why there is no answer from the outline.
#[derive(Clone, Copy, Debug, PartialEq, Eq, Structural)]
pub enum GetRelevantFilesError {
    Pending,
    CreateFailed,
    Missing,
}

impl GetRelevantFilesError {
    /// The text of the error.
    pub fn message(&self) -> (r: String)
        ensures
            r@ == (match self {
                GetRelevantFilesError::Pending => "Repo outline is still being computed."@,
                _ => "Failed to create outline."@,
            }),
    {
        match self {
            GetRelevantFilesError::Pending => "Repo outline is still being computed.".to_owned(),
            GetRelevantFilesError::CreateFailed => "Failed to create outline.".to_owned(),
            GetRelevantFilesError::Missing => "Failed to create outline.".to_owned(),
        }
    }
}

/// Why the outline cannot be searched, if it cannot.
pub open spec fn outline_problem(status: Option<OutlineStatus>) -> Option<GetRelevantFilesError> {
    match status {
        Some(OutlineStatus::Complete) => None,
        Some(OutlineStatus::Pending) => Some(GetRelevantFilesError::Pending),
        Some(OutlineStatus::Failed) => Some(GetRelevantFilesError::CreateFailed),
        None => Some(GetRelevantFilesError::Missing),
    }
}

/// Checks that the outline can be searched.
pub fn check_outline(status: Option<OutlineStatus>) -> (r: Result<(), GetRelevantFilesError>)
    ensures
        match r {
            Ok(_) => outline_problem(status) is None,
            Err(e) => outline_problem(status) == Some(e),
        },
{
    match status {
        Some(OutlineStatus::Complete) => Ok(()),
        Some(OutlineStatus::Pending) => Err(GetRelevantFilesError::Pending),
        Some(OutlineStatus::Failed) => Err(GetRelevantFilesError::CreateFailed),
        None => Err(GetRelevantFilesError::Missing),
    }
}

/// Where a search goes. `C` describes a remote session.
pub enum GetRelevantFilesRequestTarget<C> {
    Local { directory: String },
    Remote { session_context: C, requested_codebase_path: Option<String> },
}

/// A request in flight: a task that can be aborted, or a retrieval from the
/// full-source index.
pub enum RequestHandle<S = String> {
    AbortHandle(u64),
    RetrievalID { repo_path: S, retrieval_id: u64 },
}

pub type HandleModel = RequestHandle<Seq<char>>;

impl View for RequestHandle<String> {
    type V = HandleModel;

    open spec fn view(&self) -> HandleModel {
        match self {
            RequestHandle::AbortHandle(task) => RequestHandle::AbortHandle(*task),
            RequestHandle::RetrievalID { repo_path, retrieval_id } => RequestHandle::RetrievalID {
                repo_path: repo_path@,
                retrieval_id: *retrieval_id,
            },
        }
    }
}

/// What a remote search found, or why it failed on this side.
#[derive(Debug)]
pub enum SearchCodebaseResult<R, S = String> {
    Found(R),
    ClientError { message: S },
}

/// What a request found. `L` are locations, `R` is a remote result.
#[derive(Debug)]
pub enum GetRelevantFilesControllerResult<L, R> {
    Locations(L),
    SearchResult(SearchCodebaseResult<R>),
}

/// What a request came to.
#[derive(Debug)]
pub enum GetRelevantFilesControllerEvent<L, R> {
    Success { action_id: String, result: GetRelevantFilesControllerResult<L, R> },
    Error { action_id: String },
}

/// The action that an event belongs to.
pub open spec fn event_action<L, R>(event: GetRelevantFilesControllerEvent<L, R>) -> Seq<char> {
    match event {
        GetRelevantFilesControllerEvent::Success { action_id, .. } => action_id@,
        GetRelevantFilesControllerEvent::Error { action_id } => action_id@,
    }
}

impl<L, R> GetRelevantFilesControllerEvent<L, R> {
    pub fn action_id(&self) -> (r: &String)
        ensures
            r@ == event_action(*self),
    {
        match self {
            GetRelevantFilesControllerEvent::Success { action_id, .. } => action_id,
            GetRelevantFilesControllerEvent::Error { action_id } => action_id,
        }
    }
}

/// The requests in flight of a session, one for each action at most.
pub struct GetRelevantFilesController {
    pending: Vec<(String, RequestHandle)>,
}

pub open spec fn pending_models(v: Seq<(String, RequestHandle)>) -> Seq<(Seq<char>, HandleModel)> {
    Seq::new(v.len(), |i: int| (v[i].0@, v[i].1@))
}

impl View for GetRelevantFilesController {
    type V = Seq<(Seq<char>, HandleModel)>;

    closed spec fn view(&self) -> Seq<(Seq<char>, HandleModel)> {
        pending_models(self.pending@)
    }
}

/// Every action has one request at most.
pub open spec fn one_each(pending: Seq<(Seq<char>, HandleModel)>) -> bool {
    forall|i: int, j: int|
        #![trigger pending[i], pending[j]]
        0 <= i < j < pending.len() ==> pending[i].0 != pending[j].0
}

/// The position of an action's request, or their number.
pub open spec fn pending_at(
    pending: Seq<(Seq<char>, HandleModel)>,
    action: Seq<char>,
    from: int,
) -> int
    decreases pending.len() - from,
{
    if from >= pending.len() {
        pending.len() as int
    } else if pending[from].0 == action {
        from
    } else {
        pending_at(pending, action, from + 1)
    }
}

/// The request of an action.
pub open spec fn pending_of(pending: Seq<(Seq<char>, HandleModel)>, action: Seq<char>) -> Option<
    HandleModel,
> {
    let at = pending_at(pending, action, 0);
    if 0 <= at < pending.len() {
        Some(pending[at].1)
    } else {
        None
    }
}

/// The requests without that of an action.
pub open spec fn without(pending: Seq<(Seq<char>, HandleModel)>, action: Seq<char>) -> Seq<
    (Seq<char>, HandleModel),
> {
    let at = pending_at(pending, action, 0);
    if 0 <= at < pending.len() {
        pending.remove(at)
    } else {
        pending
    }
}

/// The position of the request with a retrieval, or their number.
pub open spec fn retrieval_at(
    pending: Seq<(Seq<char>, HandleModel)>,
    retrieval: u64,
    from: int,
) -> int
    decreases pending.len() - from,
{
    if from >= pending.len() {
        pending.len() as int
    } else if pending[from].1 is RetrievalID && pending[from].1->retrieval_id == retrieval {
        from
    } else {
        retrieval_at(pending, retrieval, from + 1)
    }
}

proof fn lemma_pending_at(pending: Seq<(Seq<char>, HandleModel)>, action: Seq<char>, from: int)
    requires
        0 <= from <= pending.len(),
    ensures
        from <= pending_at(pending, action, from) <= pending.len(),
        pending_at(pending, action, from) < pending.len() ==> pending[pending_at(
            pending,
            action,
            from,
        )].0 == action,
        forall|i: int|
            from <= i < pending_at(pending, action, from) ==> (#[trigger] pending[i]).0 != action,
    decreases pending.len() - from,
{
    if from < pending.len() && pending[from].0 != action {
        lemma_pending_at(pending, action, from + 1);
    }
}

proof fn lemma_without(pending: Seq<(Seq<char>, HandleModel)>, action: Seq<char>)
    requires
        one_each(pending),
    ensures
        one_each(without(pending, action)),
        forall|i: int|
            0 <= i < without(pending, action).len() ==> (#[trigger] without(
                pending,
                action,
            )[i]).0 != action,
{
    lemma_pending_at(pending, action, 0);
    let at = pending_at(pending, action, 0);
    let rest = without(pending, action);
    if at < pending.len() {
        assert forall|i: int| 0 <= i < rest.len() implies (#[trigger] rest[i]).0 != action by {
            if i < at {
                assert(rest[i] == pending[i]);
            } else {
                assert(rest[i] == pending[i + 1]);
                assert(pending[at].0 != pending[i + 1].0);
            }
        }
        assert forall|i: int, j: int|
            #![trigger rest[i], rest[j]]
            0 <= i < j < rest.len() implies rest[i].0 != rest[j].0 by {
            let a = if i < at {
                i
            } else {
                i + 1
            };
            let b = if j < at {
                j
            } else {
                j + 1
            };
            assert(rest[i] == pending[a] && rest[j] == pending[b]);
        }
    } else {
        assert forall|i: int| 0 <= i < rest.len() implies (#[trigger] rest[i]).0 != action by {
            assert(pending[i].0 != action);
        }
    }
}

/// Whether an event hands out what an action's request found.
pub open spec fn found_event<L, R>(
    event: GetRelevantFilesControllerEvent<L, R>,
    action: Seq<char>,
    found: GetRelevantFilesControllerResult<L, R>,
) -> bool {
    event is Success && event_action(event) == action && event->result == found
}

/// Whether an outcome is that of a retrieval.
pub open spec fn outcome_event<L, R>(
    outcome: Result<L, String>,
    event: GetRelevantFilesControllerEvent<L, R>,
    action: Seq<char>,
) -> bool {
    match outcome {
        Ok(locations) => found_event(
            event,
            action,
            GetRelevantFilesControllerResult::Locations(locations),
        ),
        Err(_) => event is Error && event_action(event) == action,
    }
}

/// How a request was started.
pub enum StartedRequest<L, R> {
    /// In this machine: the retrieval that was started in the full-source index
    /// with the root of the codebase, where that index is in use and took the
    /// request; otherwise what the outline gave, which answers at once.
    Local { retrieval: Option<(String, u64)>, outline: Result<L, GetRelevantFilesError> },
    /// In the machine of a remote session: a result that is there at once, or
    /// the task that goes on.
    Remote(Result<SearchCodebaseResult<R>, u64>),
}

/// Whether a started request is taken note of: `after` are the requests of
/// before and this one, if it goes on.
pub open spec fn noted<L, R>(
    before: Seq<(Seq<char>, HandleModel)>,
    action: Seq<char>,
    request: StartedRequest<L, R>,
    after: Seq<(Seq<char>, HandleModel)>,
    r: Result<Option<GetRelevantFilesControllerEvent<L, R>>, GetRelevantFilesError>,
) -> bool {
    match request {
        StartedRequest::Local { retrieval: Some((root, id)), .. } => {
            &&& r is Ok
            &&& r->Ok_0 is None
            &&& after == before.push(
                (
                    action,
                    RequestHandle::<Seq<char>>::RetrievalID { repo_path: root@, retrieval_id: id },
                ),
            )
        },
        StartedRequest::Local { retrieval: None, outline } => after == before && match outline {
            Ok(locations) => r is Ok && r->Ok_0 is Some && found_event(
                r->Ok_0->0,
                action,
                GetRelevantFilesControllerResult::Locations(locations),
            ),
            Err(e) => r is Err && r->Err_0 == e,
        },
        StartedRequest::Remote(Ok(result)) => after == before && r is Ok && r->Ok_0 is Some
            && found_event(
            r->Ok_0->0,
            action,
            GetRelevantFilesControllerResult::SearchResult(result),
        ),
        StartedRequest::Remote(Err(task)) => r is Ok && r->Ok_0 is None && after == before.push(
            (action, RequestHandle::<Seq<char>>::AbortHandle(task)),
        ),
    }
}

impl GetRelevantFilesController {
    pub open spec fn wf(&self) -> bool {
        one_each(self@)
    }

    pub fn new() -> (r: Self)
        ensures
            r.wf(),
            r@ == Seq::<(Seq<char>, HandleModel)>::empty(),
    {
        let r = GetRelevantFilesController { pending: Vec::new() };
        assert(r@ =~= Seq::<(Seq<char>, HandleModel)>::empty());
        r
    }

    /// The number of requests in flight.
    pub fn pending_count(&self) -> (r: usize)
        ensures
            r == self@.len(),
    {
        self.pending.len()
    }

    fn position(&self, action_id: &str) -> (r: usize)
        ensures
            r == pending_at(self@, action_id@, 0),
            r <= self.pending.len(),
    {
        let ghost all = self@;
        let mut i: usize = 0;
        while i < self.pending.len()
            invariant
                i <= self.pending.len(),
                all == self@,
                all.len() == self.pending.len(),
                pending_at(all, action_id@, 0) == pending_at(all, action_id@, i as int),
            decreases self.pending.len() - i,
        {
            assert(all[i as int].0 == self.pending@[i as int].0@);
            if text::same_text(self.pending[i].0.as_str(), action_id) {
                return i;
            }
            i += 1;
        }
        i
    }

    /// Forgets the request of an action. It is returned, to be aborted.
    pub fn cancel_request_for_action(&mut self, action_id: &str) -> (r: Option<RequestHandle>)
        requires
            old(self).wf(),
        ensures
            final(self).wf(),
            final(self)@ == without(old(self)@, action_id@),
            match r {
                Some(handle) => pending_of(old(self)@, action_id@) == Some(handle@),
                None => pending_of(old(self)@, action_id@) is None,
            },
    {
        let ghost before = self@;
        let i: usize = self.position(action_id);
        proof {
            lemma_without(before, action_id@);
        }
        if i >= self.pending.len() {
            return None;
        }
        assert(before[i as int].1 == self.pending@[i as int].1@);
        let (_, handle) = self.pending.remove(i);
        assert(self@ =~= before.remove(i as int));
        Some(handle)
    }

    fn insert(&mut self, action_id: String, handle: RequestHandle)
        requires
            old(self).wf(),
            forall|i: int| 0 <= i < old(self)@.len() ==> (#[trigger] old(self)@[i]).0
                != action_id@,
        ensures
            final(self).wf(),
            final(self)@ == old(self)@.push((action_id@, handle@)),
    {
        let ghost before = self@;
        let ghost entry = (action_id@, handle@);
        self.pending.push((action_id, handle));
        assert(self@ =~= before.push(entry));
        proof {
            let after = before.push(entry);
            assert forall|i: int, j: int|
                #![trigger after[i], after[j]]
                0 <= i < j < after.len() implies after[i].0 != after[j].0 by {
                assert(after[i] == before[i]);
                if j < before.len() {
                    assert(after[j] == before[j]);
                }
            }
        }
    }

    /// Cancels the former request of an action, which is returned to be
    /// aborted, and takes note of the one that was started in its place.
    pub fn send_request<L, R>(&mut self, action_id: String, request: StartedRequest<L, R>) -> (r: (
        Option<RequestHandle>,
        Result<Option<GetRelevantFilesControllerEvent<L, R>>, GetRelevantFilesError>,
    ))
        requires
            old(self).wf(),
        ensures
            final(self).wf(),
            match r.0 {
                Some(handle) => pending_of(old(self)@, action_id@) == Some(handle@),
                None => pending_of(old(self)@, action_id@) is None,
            },
            noted(without(old(self)@, action_id@), action_id@, request, final(self)@, r.1),
    {
        proof {
            lemma_without(self@, action_id@);
        }
        let former = self.cancel_request_for_action(action_id.as_str());
        let outcome = match request {
            StartedRequest::Local { retrieval, outline } => self.send_local_request(
                action_id,
                retrieval,
                outline,
            ),
            StartedRequest::Remote(request) => Ok(self.send_remote_request(action_id, request)),
        };
        (former, outcome)
    }

    /// Takes note of a local request of an action that has none.
    fn send_local_request<L, R>(
        &mut self,
        action_id: String,
        retrieval: Option<(String, u64)>,
        outline: Result<L, GetRelevantFilesError>,
    ) -> (r: Result<Option<GetRelevantFilesControllerEvent<L, R>>, GetRelevantFilesError>)
        requires
            old(self).wf(),
            forall|i: int| 0 <= i < old(self)@.len() ==> (#[trigger] old(self)@[i]).0
                != action_id@,
        ensures
            final(self).wf(),
            noted(
                old(self)@,
                action_id@,
                StartedRequest::Local { retrieval, outline },
                final(self)@,
                r,
            ),
    {
        match retrieval {
            Some((repo_path, retrieval_id)) => {
                self.insert(action_id, RequestHandle::RetrievalID { repo_path, retrieval_id });
                Ok(None)
            },
            None => match outline {
                Ok(locations) => Ok(
                    Some(
                        GetRelevantFilesControllerEvent::Success {
                            action_id,
                            result: GetRelevantFilesControllerResult::Locations(locations),
                        },
                    ),
                ),
                Err(error) => Err(error),
            },
        }
    }

    /// Takes note of a remote request of an action that has none.
    fn send_remote_request<L, R>(
        &mut self,
        action_id: String,
        request: Result<SearchCodebaseResult<R>, u64>,
    ) -> (r: Option<GetRelevantFilesControllerEvent<L, R>>)
        requires
            old(self).wf(),
            forall|i: int| 0 <= i < old(self)@.len() ==> (#[trigger] old(self)@[i]).0
                != action_id@,
        ensures
            final(self).wf(),
            noted(
                old(self)@,
                action_id@,
                StartedRequest::Remote(request),
                final(self)@,
                Ok::<Option<GetRelevantFilesControllerEvent<L, R>>, GetRelevantFilesError>(r),
            ),
    {
        match request {
            Ok(result) => Some(
                GetRelevantFilesControllerEvent::Success {
                    action_id,
                    result: GetRelevantFilesControllerResult::SearchResult(result),
                },
            ),
            Err(task) => {
                self.insert(action_id, RequestHandle::AbortHandle(task));
                None
            },
        }
    }

    /// Ends the request of an action with what was found, unless it is gone.
    pub fn handle_relevant_file_paths_result<L, R>(
        &mut self,
        outcome: Result<L, String>,
        action_id: String,
    ) -> (r: Option<GetRelevantFilesControllerEvent<L, R>>)
        requires
            old(self).wf(),
        ensures
            final(self).wf(),
            final(self)@ == without(old(self)@, action_id@),
            match r {
                Some(event) => pending_of(old(self)@, action_id@) is Some && outcome_event(
                    outcome,
                    event,
                    action_id@,
                ),
                None => pending_of(old(self)@, action_id@) is None,
            },
    {
        match self.cancel_request_for_action(action_id.as_str()) {
            None => None,
            Some(_) => match outcome {
                Ok(locations) => Some(
                    GetRelevantFilesControllerEvent::Success {
                        action_id,
                        result: GetRelevantFilesControllerResult::Locations(locations),
                    },
                ),
                Err(_) => Some(GetRelevantFilesControllerEvent::Error { action_id }),
            },
        }
    }

    /// Ends the request of an action with the outcome of a remote search,
    /// unless it is gone. A failure on this side is a result too.
    pub fn handle_remote_search_result<L, R>(
        &mut self,
        outcome: Result<SearchCodebaseResult<R>, String>,
        action_id: String,
    ) -> (r: Option<GetRelevantFilesControllerEvent<L, R>>)
        requires
            old(self).wf(),
        ensures
            final(self).wf(),
            final(self)@ == without(old(self)@, action_id@),
            match r {
                Some(event) => pending_of(old(self)@, action_id@) is Some && found_event(
                    event,
                    action_id@,
                    GetRelevantFilesControllerResult::SearchResult(
                        match outcome {
                            Ok(result) => result,
                            Err(message) => SearchCodebaseResult::ClientError { message },
                        },
                    ),
                ),
                None => pending_of(old(self)@, action_id@) is None,
            },
    {
        match self.cancel_request_for_action(action_id.as_str()) {
            None => None,
            Some(_) => {
                let result = match outcome {
                    Ok(result) => result,
                    Err(message) => SearchCodebaseResult::ClientError { message },
                };
                Some(
                    GetRelevantFilesControllerEvent::Success {
                        action_id,
                        result: GetRelevantFilesControllerResult::SearchResult(result),
                    },
                )
            },
        }
    }

    /// Ends the request that waits for a retrieval, if there is one.
    pub fn handle_codebase_manager_event<L, R>(
        &mut self,
        retrieval_id: u64,
        outcome: Result<L, String>,
    ) -> (r: Option<GetRelevantFilesControllerEvent<L, R>>)
        requires
            old(self).wf(),
        ensures
            final(self).wf(),
            ({
                let at = retrieval_at(old(self)@, retrieval_id, 0);
                if at < old(self)@.len() {
                    let action = old(self)@[at].0;
                    final(self)@ == without(old(self)@, action) && r is Some && outcome_event(
                        outcome,
                        r->0,
                        action,
                    )
                } else {
                    r is None && final(self)@ == old(self)@
                }
            }),
    {
        let ghost all = self@;
        let mut i: usize = 0;
        while i < self.pending.len()
            invariant
                i <= self.pending.len(),
                all == self@,
                all == old(self)@,
                all.len() == self.pending.len(),
                self.wf(),
                retrieval_at(all, retrieval_id, 0) == retrieval_at(all, retrieval_id, i as int),
            decreases self.pending.len() - i,
        {
            assert(all[i as int] == (self.pending@[i as int].0@, self.pending@[i as int].1@));
            let matches = match &self.pending[i].1 {
                RequestHandle::AbortHandle(_) => false,
                RequestHandle::RetrievalID { retrieval_id: waiting, .. } => *waiting
                    == retrieval_id,
            };
            if matches {
                let action_id = self.pending[i].0.clone();
                proof {
                    lemma_pending_at(all, action_id@, 0);
                }
                return self.handle_relevant_file_paths_result(outcome, action_id);
            }
            i += 1;
        }
        None
    }
}

/// The root of a codebase search: that of the full-source index where it is in
/// use, or else that of the outline.
pub fn root_directory_for_search(
    embedding_enabled: bool,
    index_root: Option<String>,
    outline_root: Option<String>,
) -> (r: Option<String>)
    ensures
        text::text_opt(r) == (if embedding_enabled && index_root is Some {
            text::text_opt(index_root)
        } else {
            text::text_opt(outline_root)
        }),
{
    if embedding_enabled {
        if let Some(root) = index_root {
            return Some(root);
        }
    }
    outline_root
}

// ---------------------------------------------------------------------------
// Laws.

/// A match of a stronger kind outweighs any number of weaker ones.
pub proof fn law_no_cross_tier_inversion(a: LocalCandidateScore, b: LocalCandidateScore)
    ensures
        a.path_matches > b.path_matches ==> outranks(a, b),
        a.path_matches == b.path_matches && a.file_name_matches > b.file_name_matches ==> outranks(
            a,
            b,
        ),
        a.path_matches == b.path_matches && a.file_name_matches == b.file_name_matches
            && a.symbol_token_matches > b.symbol_token_matches ==> outranks(a, b),
        a.path_matches == b.path_matches && a.file_name_matches == b.file_name_matches
            && a.symbol_token_matches == b.symbol_token_matches && a.symbol_substring_matches
            > b.symbol_substring_matches ==> outranks(a, b),
{
}

/// A search returns no more files than its limit.
pub proof fn law_search_is_bounded(
    query: Seq<char>,
    partials: Seq<Seq<char>>,
    candidates: Seq<FileModel>,
    scores: Seq<(Seq<char>, LocalCandidateScore)>,
)
    ensures
        ranked_files(query, partials, candidates, scores).len() <= LOCAL_OUTLINE_RESULT_LIMIT,
{
}

proof fn lemma_validated(root: Seq<char>, probes: Seq<ProbeModel>, i: int, j: int)
    requires
        0 <= i < validated(root, probes).len(),
        0 <= j < validated(root, probes).len(),
    ensures
        paths::is_within(validated(root, probes)[i].absolute_path, root),
        i != j ==> validated(root, probes)[i].absolute_path != validated(
            root,
            probes,
        )[j].absolute_path,
    decreases probes.len(),
{
    let init = validated(root, probes.drop_last());
    if i < init.len() && j < init.len() {
        lemma_validated(root, probes.drop_last(), i, j);
    } else if i < init.len() {
        lemma_validated(root, probes.drop_last(), i, i);
        assert(init[i].absolute_path != validated(root, probes)[j].absolute_path);
    } else if j < init.len() {
        assert(init[j].absolute_path != validated(root, probes)[i].absolute_path);
    }
}

/// Every file that the checks let through lies in the codebase, and no file on
/// disk is there twice.
pub proof fn law_validated_files_are_confined(
    root: Seq<char>,
    probes: Seq<ProbeModel>,
    i: int,
    j: int,
)
    requires
        0 <= i < validated_files(root, probes).len(),
        0 <= j < validated_files(root, probes).len(),
    ensures
        paths::is_within(validated_files(root, probes)[i].absolute_path, root),
        i != j ==> validated_files(root, probes)[i].absolute_path != validated_files(
            root,
            probes,
        )[j].absolute_path,
{
    lemma_validated(root, order::sorted_by(probes, probe_order()), i, j);
}

proof fn lemma_disk_path(found: Seq<ValidatedModel>, path: Seq<char>)
    ensures
        disk_path(found, path) matches Some(p) ==> is_taken(found, p),
    decreases found.len(),
{
    if found.len() > 0 && found[0].context.path != path {
        let rest = found.subrange(1, found.len() as int);
        lemma_disk_path(rest, path);
        if let Some(p) = disk_path(rest, path) {
            let i = choose|i: int| 0 <= i < rest.len() && (#[trigger] rest[i]).absolute_path == p;
            assert(found[i + 1].absolute_path == p);
        }
    }
}

proof fn lemma_disk_paths(found: Seq<ValidatedModel>, ranked: Seq<FileModel>)
    ensures
        disk_paths(found, ranked).len() <= ranked.len(),
        forall|i: int|
            0 <= i < disk_paths(found, ranked).len() ==> is_taken(
                found,
                #[trigger] disk_paths(found, ranked)[i],
            ),
    decreases ranked.len(),
{
    if ranked.len() > 0 {
        lemma_disk_paths(found, ranked.drop_last());
        lemma_disk_path(found, ranked.last().path);
        let init = disk_paths(found, ranked.drop_last());
        assert forall|i: int| 0 <= i < disk_paths(found, ranked).len() implies is_taken(
            found,
            #[trigger] disk_paths(found, ranked)[i],
        ) by {
            if i < init.len() {
                assert(is_taken(found, init[i]));
            }
        }
    }
}

/// An answer names files of the codebase only, and no more than the limit.
pub proof fn law_answers_stay_in_the_codebase(
    root: Seq<char>,
    query: Seq<char>,
    partials: Seq<Seq<char>>,
    probes: Seq<ProbeModel>,
    searched: Seq<SearchedFile>,
)
    ensures
        located(query, partials, validated_files(root, probes), searched).len()
            <= LOCAL_OUTLINE_RESULT_LIMIT,
        forall|i: int|
            0 <= i < located(query, partials, validated_files(root, probes), searched).len()
                ==> paths::is_within(
                #[trigger] located(query, partials, validated_files(root, probes), searched)[i],
                root,
            ),
{
    let found = validated_files(root, probes);
    let scores = evidence(normalized(query), searched);
    let ranked = ranked_files(query, partials, found_contexts(found), scores);
    law_search_is_bounded(query, partials, found_contexts(found), scores);
    lemma_disk_paths(found, ranked);
    assert forall|i: int| 0 <= i < disk_paths(found, ranked).len() implies paths::is_within(
        #[trigger] disk_paths(found, ranked)[i],
        root,
    ) by {
        let path = disk_paths(found, ranked)[i];
        assert(is_taken(found, path));
        let j = choose|j: int| 0 <= j < found.len() && (#[trigger] found[j]).absolute_path == path;
        law_validated_files_are_confined(root, probes, j, j);
    }
}

/// A cancelled request never ends in an event.
pub proof fn law_cancelled_request_is_gone(
    pending: Seq<(Seq<char>, HandleModel)>,
    action: Seq<char>,
)
    requires
        one_each(pending),
    ensures
        pending_of(without(pending, action), action) is None,
{
    lemma_without(pending, action);
    lemma_pending_at(without(pending, action), action, 0);
}

/// Cancelling the request of an action leaves those of the others.
pub proof fn law_other_requests_stay(
    pending: Seq<(Seq<char>, HandleModel)>,
    action: Seq<char>,
    other: Seq<char>,
)
    requires
        one_each(pending),
        action != other,
    ensures
        pending_of(without(pending, action), other) == pending_of(pending, other),
{
    let rest = without(pending, action);
    lemma_without(pending, action);
    lemma_pending_at(pending, action, 0);
    lemma_pending_at(pending, other, 0);
    lemma_pending_at(rest, other, 0);
    let at = pending_at(pending, action, 0);
    let k = pending_at(pending, other, 0);
    let m = pending_at(rest, other, 0);
    if at < pending.len() {
        if k < pending.len() {
            let shifted = if k < at {
                k
            } else {
                k - 1
            };
            assert(rest[shifted] == pending[k]);
            assert(m < rest.len());
            if m != shifted {
                assert(rest[m].0 != rest[shifted].0);
            }
        } else if m < rest.len() {
            let back = if m < at {
                m
            } else {
                m + 1
            };
            assert(rest[m] == pending[back]);
        }
    }
}

/// The order of the files in a list is a total preorder.
proof fn lemma_listing_preorder()
    ensures
        order::is_preorder(listing_order()),
{
    let r = listing_order();
    assert forall|a: FileModel, b: FileModel| #[trigger] r(a, b) || r(b, a) by {
        text::lemma_text_total(path_key(a.path), path_key(b.path));
        text::lemma_text_total(a.path, b.path);
        text::lemma_text_total(a.symbols, b.symbols);
    }
    assert forall|a: FileModel, b: FileModel, c: FileModel|
        #![trigger r(a, b), r(b, c)]
        r(a, b) && r(b, c) implies r(a, c) by {
        lemma_text_order(path_key(a.path), path_key(b.path), path_key(c.path));
        lemma_text_order(a.path, b.path, c.path);
        lemma_text_order(a.symbols, b.symbols, c.symbols);
    }
}

/// The order of the ranked files is a total preorder.
proof fn lemma_rank_preorder(
    query: Seq<Seq<char>>,
    partials: Seq<Seq<char>>,
    scores: Seq<(Seq<char>, LocalCandidateScore)>,
)
    ensures
        order::is_preorder(rank_order(query, partials, scores)),
{
    let r = rank_order(query, partials, scores);
    assert forall|a: FileModel, b: FileModel| #[trigger] r(a, b) || r(b, a) by {
        text::lemma_text_total(path_key(a.path), path_key(b.path));
        text::lemma_text_total(a.path, b.path);
    }
    assert forall|a: FileModel, b: FileModel, c: FileModel|
        #![trigger r(a, b), r(b, c)]
        r(a, b) && r(b, c) implies r(a, c) by {
        lemma_text_order(path_key(a.path), path_key(b.path), path_key(c.path));
        lemma_text_order(a.path, b.path, c.path);
    }
}

/// Whether no path is in a list twice.
pub open spec fn distinct_paths(files: Seq<FileModel>) -> bool {
    forall|i: int, j: int|
        #![trigger files[i], files[j]]
        0 <= i < j < files.len() ==> files[i].path != files[j].path
}

/// Removing what is there already from a sorted list leaves every path once.
proof fn lemma_deduped(files: Seq<FileModel>)
    requires
        forall|i: int, j: int|
            #![trigger files[i], files[j]]
            0 <= i < j < files.len() ==> listed_at_most(files[i], files[j]),
    ensures
        distinct_paths(deduped(files)),
        forall|i: int|
            0 <= i < deduped(files).len() ==> files.contains(#[trigger] deduped(files)[i]),
        files.len() > 0 ==> deduped(files).len() > 0 && deduped(files).last().path
            == files.last().path,
    decreases files.len(),
{
    let out = deduped(files);
    if files.len() > 0 {
        let init = files.drop_last();
        let kept = deduped(init);
        let last = files.last();
        lemma_deduped(init);
        assert forall|i: int| 0 <= i < out.len() implies files.contains(#[trigger] out[i]) by {
            if i < kept.len() {
                assert(init.contains(kept[i]));
                let k = choose|k: int| 0 <= k < init.len() && init[k] == kept[i];
                assert(files[k] == out[i]);
            } else {
                assert(files[files.len() - 1] == out[i]);
            }
        }
        assert forall|i: int, j: int|
            #![trigger out[i], out[j]]
            0 <= i < j < out.len() implies out[i].path != out[j].path by {
            assert(out[i] == kept[i]);
            if j < kept.len() {
                assert(out[j] == kept[j]);
            } else {
                assert(out[j] == last);
                if kept[i].path == last.path {
                    let previous = init.last();
                    assert(kept.last().path == previous.path);
                    assert(init.contains(kept[i]));
                    let k = choose|k: int| 0 <= k < init.len() && init[k] == kept[i];
                    let p = init.len() - 1;
                    if k < p {
                        assert(listed_at_most(files[k], files[p]));
                    }
                    assert(listed_at_most(files[p], files[files.len() - 1]));
                    lemma_text_order(
                        path_key(kept[i].path),
                        path_key(previous.path),
                        path_key(last.path),
                    );
                    lemma_text_order(kept[i].path, previous.path, last.path);
                    assert(previous.path == last.path);
                }
            }
        }
    }
}

/// A filtered list repeats no path that the list did not repeat.
proof fn lemma_filtered_paths(files: Seq<FileModel>, keep: spec_fn(FileModel) -> bool)
    requires
        distinct_paths(files),
    ensures
        distinct_paths(files.filter(keep)),
    decreases files.len(),
{
    reveal(Seq::filter);
    let out = files.filter(keep);
    if files.len() > 0 {
        let init = files.drop_last();
        let kept = init.filter(keep);
        lemma_filtered_paths(init, keep);
        assert forall|i: int, j: int|
            #![trigger out[i], out[j]]
            0 <= i < j < out.len() implies out[i].path != out[j].path by {
            assert(out[i] == kept[i]);
            if j < kept.len() {
                assert(out[j] == kept[j]);
            } else {
                order::lemma_filtered(init, keep, i);
                let k = choose|k: int| 0 <= k < init.len() && init[k] == kept[i];
                assert(files[k].path != files[files.len() - 1].path);
            }
        }
    }
}

/// A list with the same files repeats no path that the other does not repeat.
proof fn lemma_permuted_paths(a: Seq<FileModel>, b: Seq<FileModel>)
    requires
        distinct_paths(a),
        a.to_multiset() == b.to_multiset(),
    ensures
        distinct_paths(b),
{
    let f = |file: FileModel| file.path;
    order::lemma_same_images(a, b, f);
    let x = a.map_values(f);
    let y = b.map_values(f);
    assert(x.no_duplicates()) by {
        assert forall|i: int, j: int| 0 <= i < x.len() && 0 <= j < x.len() && i != j implies x[i]
            != x[j] by {
            if i < j {
                assert(a[i].path != a[j].path);
            } else {
                assert(a[j].path != a[i].path);
            }
        }
    }
    x.lemma_multiset_has_no_duplicates();
    y.lemma_multiset_has_no_duplicates_conv();
    assert forall|i: int, j: int|
        #![trigger b[i], b[j]]
        0 <= i < j < b.len() implies b[i].path != b[j].path by {
        assert(y[i] != y[j]);
    }
}

/// A search neither invents nor repeats a path: what it returns are candidates,
/// and no path is there twice.
pub proof fn law_search_neither_invents_nor_repeats(
    query: Seq<char>,
    partials: Seq<Seq<char>>,
    candidates: Seq<FileModel>,
    scores: Seq<(Seq<char>, LocalCandidateScore)>,
)
    ensures
        distinct_paths(ranked_files(query, partials, candidates, scores)),
        forall|i: int|
            0 <= i < ranked_files(query, partials, candidates, scores).len()
                ==> candidates.contains(
                #[trigger] ranked_files(query, partials, candidates, scores)[i],
            ),
{
    broadcast use vstd::seq_lib::group_to_multiset_ensures;

    let out = ranked_files(query, partials, candidates, scores);
    let sorted = order::sorted_by(candidates, listing_order());
    let unique = deduped(sorted);
    lemma_listing_preorder();
    order::lemma_sorted_by_in_order(candidates, listing_order());
    order::lemma_sorted_by_permutes(candidates, listing_order());
    assert forall|i: int, j: int|
        #![trigger sorted[i], sorted[j]]
        0 <= i < j < sorted.len() implies listed_at_most(sorted[i], sorted[j]) by {
        assert(listing_order()(sorted[i], sorted[j]));
    }
    lemma_deduped(sorted);
    assert forall|x: FileModel| sorted.contains(x) implies candidates.contains(x) by {
        assert(sorted.to_multiset().count(x) > 0);
    }
    assert forall|i: int| 0 <= i < unique.len() implies candidates.contains(
        #[trigger] unique[i],
    ) by {
        assert(sorted.contains(unique[i]));
    }
    let tokens = normalized(query);
    if tokens.len() > 0 {
        let matching = unique.filter(relevant(tokens, partials, scores));
        lemma_filtered_paths(unique, relevant(tokens, partials, scores));
        let ranked = order::sorted_by(matching, rank_order(tokens, partials, scores));
        order::lemma_sorted_by_permutes(matching, rank_order(tokens, partials, scores));
        lemma_permuted_paths(matching, ranked);
        assert forall|i: int| 0 <= i < out.len() implies candidates.contains(
            #[trigger] out[i],
        ) by {
            assert(out[i] == ranked[i]);
            assert(ranked.contains(ranked[i]));
            assert(ranked.to_multiset().count(ranked[i]) > 0);
            assert(matching.contains(ranked[i]));
            let k = choose|k: int| 0 <= k < matching.len() && matching[k] == ranked[i];
            order::lemma_filtered(unique, relevant(tokens, partials, scores), k);
            let m = choose|m: int| 0 <= m < unique.len() && unique[m] == matching[k];
            assert(candidates.contains(unique[m]));
        }
        assert forall|i: int, j: int|
            #![trigger out[i], out[j]]
            0 <= i < j < out.len() implies out[i].path != out[j].path by {
            assert(out[i] == ranked[i] && out[j] == ranked[j]);
        }
    }
}

/// What a search with a query returns is in order: by score, then by path.
pub proof fn law_search_is_in_order(
    query: Seq<char>,
    partials: Seq<Seq<char>>,
    candidates: Seq<FileModel>,
    scores: Seq<(Seq<char>, LocalCandidateScore)>,
    i: int,
    j: int,
)
    requires
        normalized(query).len() > 0,
        0 <= i < j < ranked_files(query, partials, candidates, scores).len(),
    ensures
        rank_order(normalized(query), partials, scores)(
            ranked_files(query, partials, candidates, scores)[i],
            ranked_files(query, partials, candidates, scores)[j],
        ),
{
    let tokens = normalized(query);
    let unique = deduped(order::sorted_by(candidates, listing_order()));
    let matching = unique.filter(relevant(tokens, partials, scores));
    let ranked = order::sorted_by(matching, rank_order(tokens, partials, scores));
    lemma_rank_preorder(tokens, partials, scores);
    order::lemma_sorted_by_in_order(matching, rank_order(tokens, partials, scores));
    let out = ranked_files(query, partials, candidates, scores);
    assert(out[i] == ranked[i] && out[j] == ranked[j]);
}

// ---------------------------------------------------------------------------
// What a search promises.

/// The first kind of match in which two scores differ decides, and of two that
/// differ one is higher.
pub proof fn law_scores_are_compared_kind_by_kind(a: LocalCandidateScore, b: LocalCandidateScore)
    ensures
        outranks(a, b) ==> !outranks(b, a),
        a != b ==> outranks(a, b) || outranks(b, a),
        !outranks(a, a),
        a.path_matches == b.path_matches && a.file_name_matches == b.file_name_matches
            && a.symbol_token_matches == b.symbol_token_matches && a.symbol_substring_matches
            == b.symbol_substring_matches && a.content_token_matches > b.content_token_matches
            ==> outranks(a, b),
        a.path_matches == b.path_matches && a.file_name_matches == b.file_name_matches
            && a.symbol_token_matches == b.symbol_token_matches && a.symbol_substring_matches
            == b.symbol_substring_matches && a.content_token_matches == b.content_token_matches
            && a.content_substring_matches > b.content_substring_matches ==> outranks(a, b),
{
}

proof fn lemma_match_count_bound(query: Seq<Seq<char>>, file: FileModel, wanted: OutlineMatch)
    ensures
        match_count(query, file, wanted) <= query.len(),
    decreases query.len(),
{
    if query.len() > 0 {
        lemma_match_count_bound(query.drop_last(), file, wanted);
    }
}

proof fn lemma_partial_count_bound(partials: Seq<Seq<char>>, path: Seq<char>)
    ensures
        partial_count(partials, path) <= partials.len(),
    decreases partials.len(),
{
    if partials.len() > 0 {
        lemma_partial_count_bound(partials.drop_last(), path);
    }
}

proof fn lemma_pushed_match(
    query: Seq<Seq<char>>,
    token: Seq<char>,
    file: FileModel,
    wanted: OutlineMatch,
)
    ensures
        match_count(query.push(token), file, wanted) == match_count(query, file, wanted) + (
        if outline_match(token, file) == wanted {
            1int
        } else {
            0int
        }),
{
    assert(query.push(token).drop_last() =~= query);
}

/// One more token of a query counts once, by the strongest way in which it
/// matches the outline of a file: as a token of its directory, in its name, at
/// the start of a token of its symbols, inside one, or not at all.
pub proof fn law_each_token_counts_once(
    query: Seq<Seq<char>>,
    token: Seq<char>,
    partials: Seq<Seq<char>>,
    file: FileModel,
)
    requires
        query.len() + partials.len() < u64::MAX,
    ensures
        ({
            let before = outline_score(query, partials, file);
            let after = outline_score(query.push(token), partials, file);
            let above = normalized(directory_text(file.path)).contains(token);
            let named = (paths::file_name(file.path) matches Some(name) && some_holds(
                normalized(name),
                token,
            )) || (paths::file_stem(file.path) matches Some(stem) && some_holds(
                normalized(stem),
                token,
            ));
            let begun = exists|i: int|
                0 <= i < normalized(file.symbols).len() && text::starts_with(
                    #[trigger] normalized(file.symbols)[i],
                    token,
                );
            let inside = exists|i: int|
                0 <= i < normalized(file.symbols).len() && text::occurs_in(
                    token,
                    #[trigger] normalized(file.symbols)[i],
                );
            &&& above ==> after == (LocalCandidateScore {
                path_matches: (before.path_matches + 1) as u64,
                ..before
            })
            &&& !above && named ==> after == (LocalCandidateScore {
                file_name_matches: (before.file_name_matches + 1) as u64,
                ..before
            })
            &&& !above && !named && begun ==> after == (LocalCandidateScore {
                symbol_token_matches: (before.symbol_token_matches + 1) as u64,
                ..before
            })
            &&& !above && !named && !begun && inside ==> after == (LocalCandidateScore {
                symbol_substring_matches: (before.symbol_substring_matches + 1) as u64,
                ..before
            })
            &&& !above && !named && !begun && !inside ==> after == before
        }),
{
    lemma_partial_count_bound(partials, file.path);
    lemma_match_count_bound(query, file, OutlineMatch::Path);
    lemma_match_count_bound(query, file, OutlineMatch::FileName);
    lemma_match_count_bound(query, file, OutlineMatch::SymbolToken);
    lemma_match_count_bound(query, file, OutlineMatch::SymbolSubstring);
    lemma_pushed_match(query, token, file, OutlineMatch::Path);
    lemma_pushed_match(query, token, file, OutlineMatch::FileName);
    lemma_pushed_match(query, token, file, OutlineMatch::SymbolToken);
    lemma_pushed_match(query, token, file, OutlineMatch::SymbolSubstring);
}

/// Whether tokens stand in a row from a place on.
pub open spec fn runs_from(all: Seq<Seq<char>>, wanted: Seq<Seq<char>>, at: int) -> bool {
    0 <= at && at + wanted.len() <= all.len() && all.subrange(at, at + wanted.len()) == wanted
}

/// One more partial path counts among the matches of the path, where its tokens
/// stand in a row among those of the path.
pub proof fn law_partial_paths_count(
    query: Seq<Seq<char>>,
    partials: Seq<Seq<char>>,
    partial: Seq<char>,
    file: FileModel,
)
    requires
        query.len() + partials.len() < u64::MAX,
    ensures
        ({
            let before = outline_score(query, partials, file);
            let after = outline_score(query, partials.push(partial), file);
            let wanted = normalized(partial);
            let there = wanted.len() > 0 && exists|at: int|
                runs_from(normalized(file.path), wanted, at);
            &&& there ==> after == (LocalCandidateScore {
                path_matches: (before.path_matches + 1) as u64,
                ..before
            })
            &&& !there ==> after == before
        }),
{
    assert(partials.push(partial).drop_last() =~= partials);
    lemma_partial_count_bound(partials, file.path);
    lemma_match_count_bound(query, file, OutlineMatch::Path);
    let wanted = normalized(partial);
    let all = normalized(file.path);
    if sequence_in(all, wanted) {
        let at = choose|at: int| sequence_at(all, wanted, at);
        assert(all.subrange(at, at + wanted.len()) =~= wanted);
        assert(runs_from(all, wanted, at));
    }
    if wanted.len() > 0 && exists|at: int| runs_from(all, wanted, at) {
        let at = choose|at: int| runs_from(all, wanted, at);
        assert(all.subrange(at, at + wanted.len()) =~= wanted);
        assert(sequence_at(all, wanted, at));
    }
}

/// A file without a query and without partial paths matches nothing.
pub proof fn law_nothing_asked_nothing_matched(file: FileModel)
    ensures
        outline_score(Seq::empty(), Seq::empty(), file) == zero_score(),
        text_score(Seq::empty(), file.symbols) == zero_score(),
{
}

proof fn lemma_content_counts(query: Seq<Seq<char>>, held: Seq<Seq<char>>)
    ensures
        held_count(query, held) <= query.len(),
        inner_count(query, held) <= query.len(),
    decreases query.len(),
{
    if query.len() > 0 {
        lemma_content_counts(query.drop_last(), held);
    }
}

/// One more token of a query counts in the contents as a token of them, else as
/// a part of one, else not at all.
pub proof fn law_each_token_counts_in_the_contents(
    query: Seq<Seq<char>>,
    token: Seq<char>,
    contents: Seq<char>,
)
    requires
        query.len() < u64::MAX,
    ensures
        ({
            let before = text_score(query, contents);
            let after = text_score(query.push(token), contents);
            let held = normalized(contents).contains(token);
            let inside = exists|i: int|
                0 <= i < normalized(contents).len() && text::occurs_in(
                    token,
                    #[trigger] normalized(contents)[i],
                );
            &&& held ==> after == (LocalCandidateScore {
                content_token_matches: (before.content_token_matches + 1) as u64,
                ..before
            })
            &&& !held && inside ==> after == (LocalCandidateScore {
                content_substring_matches: (before.content_substring_matches + 1) as u64,
                ..before
            })
            &&& !held && !inside ==> after == before
        }),
{
    assert(query.push(token).drop_last() =~= query);
    lemma_content_counts(query, normalized(contents));
}

/// A file with a zero byte matches nothing; of any other its text counts.
pub proof fn law_binary_files_do_not_match(query: Seq<Seq<char>>, contents: Seq<u8>)
    ensures
        contents.contains(0u8) ==> content_score(query, contents) == zero_score(),
        !contents.contains(0u8) ==> content_score(query, contents) == text_score(
            query,
            lossy_of(contents),
        ),
{
}

/// The score of a file is that of its outline together with the first one that
/// was recorded for its path, kind by kind.
pub proof fn law_scores_add_up(
    query: Seq<Seq<char>>,
    partials: Seq<Seq<char>>,
    scores: Seq<(Seq<char>, LocalCandidateScore)>,
    file: FileModel,
    k: int,
)
    requires
        0 <= k < scores.len(),
        scores[k].0 == file.path,
        forall|j: int| 0 <= j < k ==> (#[trigger] scores[j]).0 != file.path,
        query.len() + partials.len() < u32::MAX,
        scores[k].1.path_matches < u32::MAX,
        scores[k].1.file_name_matches < u32::MAX,
        scores[k].1.symbol_token_matches < u32::MAX,
        scores[k].1.symbol_substring_matches < u32::MAX,
    ensures
        ({
            let total = total_score(query, partials, scores, file);
            let outline = outline_score(query, partials, file);
            let found = scores[k].1;
            &&& total.path_matches == outline.path_matches + found.path_matches
            &&& total.file_name_matches == outline.file_name_matches + found.file_name_matches
            &&& total.symbol_token_matches == outline.symbol_token_matches
                + found.symbol_token_matches
            &&& total.symbol_substring_matches == outline.symbol_substring_matches
                + found.symbol_substring_matches
            &&& total.content_token_matches == found.content_token_matches
            &&& total.content_substring_matches == found.content_substring_matches
        }),
{
    lemma_partial_count_bound(partials, file.path);
    lemma_match_count_bound(query, file, OutlineMatch::Path);
    lemma_match_count_bound(query, file, OutlineMatch::FileName);
    lemma_match_count_bound(query, file, OutlineMatch::SymbolToken);
    lemma_match_count_bound(query, file, OutlineMatch::SymbolSubstring);
    lemma_recorded(scores, file.path, k);
}

proof fn lemma_recorded(
    scores: Seq<(Seq<char>, LocalCandidateScore)>,
    path: Seq<char>,
    k: int,
)
    requires
        0 <= k < scores.len(),
        scores[k].0 == path,
        forall|j: int| 0 <= j < k ==> (#[trigger] scores[j]).0 != path,
    ensures
        recorded_score(scores, path) == scores[k].1,
    decreases k,
{
    if k > 0 {
        let rest = scores.subrange(1, scores.len() as int);
        assert(scores[0].0 != path);
        assert forall|j: int| 0 <= j < k - 1 implies (#[trigger] rest[j]).0 != path by {
            assert(rest[j] == scores[j + 1]);
        }
        assert(rest[k - 1] == scores[k]);
        lemma_recorded(rest, path, k - 1);
    }
}

/// A file of which no score was recorded has that of its outline.
pub proof fn law_unsearched_files_have_the_score_of_their_outline(
    query: Seq<Seq<char>>,
    partials: Seq<Seq<char>>,
    scores: Seq<(Seq<char>, LocalCandidateScore)>,
    file: FileModel,
)
    requires
        forall|j: int| 0 <= j < scores.len() ==> (#[trigger] scores[j]).0 != file.path,
    ensures
        total_score(query, partials, scores, file) == outline_score(query, partials, file),
    decreases scores.len(),
{
    if scores.len() > 0 {
        let rest = scores.subrange(1, scores.len() as int);
        assert(scores[0].0 != file.path);
        assert forall|j: int| 0 <= j < rest.len() implies (#[trigger] rest[j]).0 != file.path by {
            assert(rest[j] == scores[j + 1]);
        }
        law_unsearched_files_have_the_score_of_their_outline(query, partials, rest, file);
    }
}

proof fn lemma_deduped_same(files: Seq<FileModel>)
    requires
        distinct_paths(files),
    ensures
        deduped(files) == files,
    decreases files.len(),
{
    if files.len() > 0 {
        let init = files.drop_last();
        assert forall|i: int, j: int|
            #![trigger init[i], init[j]]
            0 <= i < j < init.len() implies init[i].path != init[j].path by {
            assert(files[i].path != files[j].path);
        }
        lemma_deduped_same(init);
        if init.len() > 0 {
            assert(files[init.len() - 1].path != files[files.len() - 1].path);
        }
        assert(deduped(files) =~= files);
    }
}

proof fn lemma_filtered_files(s: Seq<FileModel>, keep: spec_fn(FileModel) -> bool, i: int)
    requires
        0 <= i < s.len(),
        keep(s[i]),
    ensures
        s.filter(keep).contains(s[i]),
    decreases s.len(),
{
    reveal(Seq::filter);
    let init = s.drop_last();
    let out = s.filter(keep);
    if i < init.len() {
        lemma_filtered_files(init, keep, i);
        let kept = init.filter(keep);
        let k = choose|k: int| 0 <= k < kept.len() && kept[k] == init[i];
        assert(out[k] == s[i]);
    } else {
        assert(out[out.len() - 1] == s[i]);
    }
}

/// A search is complete: of files with different paths each that matches in any
/// way is found, unless 20 others come before it.
pub proof fn law_search_is_complete(
    query: Seq<char>,
    partials: Seq<Seq<char>>,
    candidates: Seq<FileModel>,
    scores: Seq<(Seq<char>, LocalCandidateScore)>,
    i: int,
)
    requires
        normalized(query).len() > 0,
        distinct_paths(candidates),
        0 <= i < candidates.len(),
        total_score(normalized(query), partials, scores, candidates[i]) != zero_score(),
    ensures
        ({
            let hits = ranked_files(query, partials, candidates, scores);
            let own = total_score(normalized(query), partials, scores, candidates[i]);
            hits.contains(candidates[i]) || (hits.len() == 20 && forall|j: int|
                0 <= j < 20 ==> {
                    let ahead = total_score(
                        normalized(query),
                        partials,
                        scores,
                        #[trigger] hits[j],
                    );
                    outranks(ahead, own) || (ahead == own && path_at_most(
                        hits[j].path,
                        candidates[i].path,
                    ))
                })
        }),
{
    broadcast use vstd::seq_lib::group_to_multiset_ensures;

    let tokens = normalized(query);
    let rank = rank_order(tokens, partials, scores);
    let keep = relevant(tokens, partials, scores);
    let sorted = order::sorted_by(candidates, listing_order());
    let hits = ranked_files(query, partials, candidates, scores);
    let x = candidates[i];
    order::lemma_sorted_by_permutes(candidates, listing_order());
    lemma_permuted_paths(candidates, sorted);
    lemma_deduped_same(sorted);
    assert(candidates.contains(x));
    assert(candidates.to_multiset().count(x) > 0);
    assert(sorted.to_multiset().count(x) > 0);
    assert(sorted.contains(x));
    let k = choose|k: int| 0 <= k < sorted.len() && sorted[k] == x;
    lemma_filtered_files(sorted, keep, k);
    let matching = sorted.filter(keep);
    let ranked = order::sorted_by(matching, rank);
    order::lemma_sorted_by_permutes(matching, rank);
    assert(matching.to_multiset().count(x) > 0);
    assert(ranked.to_multiset().count(x) > 0);
    assert(ranked.contains(x));
    let at = choose|at: int| 0 <= at < ranked.len() && ranked[at] == x;
    lemma_rank_preorder(tokens, partials, scores);
    order::lemma_sorted_by_in_order(matching, rank);
    if at < hits.len() {
        assert(hits[at] == x);
    } else {
        assert forall|j: int| 0 <= j < 20 implies rank(#[trigger] hits[j], x) by {
            assert(hits[j] == ranked[j]);
            assert(ranked[at] == x);
        }
    }
}

/// What is found with a query matches in some way; without a query a single
/// file is found, and of more none.
pub proof fn law_what_is_found_matches(
    query: Seq<char>,
    partials: Seq<Seq<char>>,
    candidates: Seq<FileModel>,
    scores: Seq<(Seq<char>, LocalCandidateScore)>,
    i: int,
)
    ensures
        normalized(query).len() > 0 && 0 <= i < ranked_files(
            query,
            partials,
            candidates,
            scores,
        ).len() ==> total_score(
            normalized(query),
            partials,
            scores,
            ranked_files(query, partials, candidates, scores)[i],
        ) != zero_score(),
        normalized(query).len() == 0 && candidates.len() == 1 ==> ranked_files(
            query,
            partials,
            candidates,
            scores,
        ) == candidates,
        normalized(query).len() == 0 && candidates.len() >= 2 && distinct_paths(candidates)
            ==> ranked_files(query, partials, candidates, scores).len() == 0,
{
    broadcast use vstd::seq_lib::group_to_multiset_ensures;

    let tokens = normalized(query);
    let sorted = order::sorted_by(candidates, listing_order());
    order::lemma_sorted_by_permutes(candidates, listing_order());
    if tokens.len() > 0 {
        let keep = relevant(tokens, partials, scores);
        let rank = rank_order(tokens, partials, scores);
        let matching = deduped(sorted).filter(keep);
        let ranked = order::sorted_by(matching, rank);
        order::lemma_sorted_by_permutes(matching, rank);
        if 0 <= i < ranked_files(query, partials, candidates, scores).len() {
            let x = ranked_files(query, partials, candidates, scores)[i];
            assert(x == ranked[i]);
            assert(ranked.contains(x));
            assert(ranked.to_multiset().count(x) > 0);
            assert(matching.contains(x));
            let k = choose|k: int| 0 <= k < matching.len() && matching[k] == x;
            order::lemma_filtered(deduped(sorted), keep, k);
        }
    } else if candidates.len() == 1 {
        let x = candidates[0];
        assert(candidates.contains(x));
        assert(candidates.to_multiset().count(x) > 0);
        assert(sorted.to_multiset().count(x) > 0);
        assert(sorted.contains(x));
        assert(sorted =~= candidates);
        assert(sorted.drop_last() =~= Seq::<FileModel>::empty());
        assert(deduped(sorted.drop_last()) =~= Seq::<FileModel>::empty());
        assert(deduped(sorted) =~= candidates);
    } else if candidates.len() >= 2 && distinct_paths(candidates) {
        lemma_permuted_paths(candidates, sorted);
        lemma_deduped_same(sorted);
    }
}

/// Every file that is there and lies in the codebase passes the checks, under
/// its path on disk.
pub proof fn law_files_of_the_codebase_pass(root: Seq<char>, probes: Seq<ProbeModel>, i: int)
    requires
        0 <= i < probes.len(),
        probes[i].is_file,
        probes[i].resolved is Some,
        paths::is_within(probes[i].resolved->0, root),
    ensures
        exists|k: int|
            0 <= k < validated_files(root, probes).len() && (#[trigger] validated_files(
                root,
                probes,
            )[k]).absolute_path == probes[i].resolved->0,
{
    broadcast use vstd::seq_lib::group_to_multiset_ensures;

    let sorted = order::sorted_by(probes, probe_order());
    order::lemma_sorted_by_permutes(probes, probe_order());
    let x = probes[i];
    assert(probes.contains(x));
    assert(probes.to_multiset().count(x) > 0);
    assert(sorted.to_multiset().count(x) > 0);
    assert(sorted.contains(x));
    let j = choose|j: int| 0 <= j < sorted.len() && sorted[j] == x;
    lemma_validated_holds(root, sorted, j);
    let found = validated(root, sorted);
    let k = choose|k: int|
        0 <= k < found.len() && (#[trigger] found[k]).absolute_path == x.resolved->0;
    assert(validated_files(root, probes)[k].absolute_path == x.resolved->0);
}

proof fn lemma_validated_holds(root: Seq<char>, probes: Seq<ProbeModel>, j: int)
    requires
        0 <= j < probes.len(),
        probes[j].is_file,
        probes[j].resolved is Some,
        paths::is_within(probes[j].resolved->0, root),
    ensures
        is_taken(validated(root, probes), probes[j].resolved->0),
    decreases probes.len(),
{
    let init = validated(root, probes.drop_last());
    let out = validated(root, probes);
    let path = probes[j].resolved->0;
    if j < probes.len() - 1 {
        lemma_validated_holds(root, probes.drop_last(), j);
        let k = choose|k: int| 0 <= k < init.len() && (#[trigger] init[k]).absolute_path == path;
        assert(out[k] == init[k]);
    } else if !is_taken(init, path) {
        assert(out[init.len() as int].absolute_path == path);
    }
}

/// What passes the checks is a file that was looked at: its path on disk is
/// what its path in the outline resolved to.
pub proof fn law_validated_files_were_looked_at(root: Seq<char>, probes: Seq<ProbeModel>, k: int)
    requires
        0 <= k < validated_files(root, probes).len(),
    ensures
        exists|i: int|
            0 <= i < probes.len() && (#[trigger] probes[i]).context == validated_files(
                root,
                probes,
            )[k].context && probes[i].resolved == Some(
                validated_files(root, probes)[k].absolute_path,
            ) && probes[i].is_file,
{
    broadcast use vstd::seq_lib::group_to_multiset_ensures;

    let sorted = order::sorted_by(probes, probe_order());
    order::lemma_sorted_by_permutes(probes, probe_order());
    lemma_validated_origin(root, sorted, k);
    let entry = validated(root, sorted)[k];
    let j = choose|j: int|
        0 <= j < sorted.len() && (#[trigger] sorted[j]).context == entry.context
            && sorted[j].resolved == Some(entry.absolute_path) && sorted[j].is_file;
    let x = sorted[j];
    assert(sorted.contains(x));
    assert(sorted.to_multiset().count(x) > 0);
    assert(probes.to_multiset().count(x) > 0);
    assert(probes.contains(x));
    let i = choose|i: int| 0 <= i < probes.len() && probes[i] == x;
    assert(probes[i].context == entry.context);
}

proof fn lemma_validated_origin(root: Seq<char>, probes: Seq<ProbeModel>, k: int)
    requires
        0 <= k < validated(root, probes).len(),
    ensures
        exists|j: int|
            0 <= j < probes.len() && (#[trigger] probes[j]).context == validated(
                root,
                probes,
            )[k].context && probes[j].resolved == Some(validated(root, probes)[k].absolute_path)
                && probes[j].is_file,
    decreases probes.len(),
{
    if probes.len() > 0 {
        let init = validated(root, probes.drop_last());
        if k < init.len() {
            lemma_validated_origin(root, probes.drop_last(), k);
            let head = probes.drop_last();
            let j = choose|j: int|
                0 <= j < head.len() && (#[trigger] head[j]).context == init[k].context
                    && head[j].resolved == Some(init[k].absolute_path) && head[j].is_file;
            assert(probes[j] == head[j]);
        } else {
            assert(probes[probes.len() - 1] == probes.last());
        }
    }
}

/// The contents of at most 128 files are searched, and of each its first 65536
/// bytes; a file is left out only for 128 that come before it.
pub proof fn law_contents_that_are_searched(
    query: Seq<char>,
    partials: Seq<Seq<char>>,
    files: Seq<FileModel>,
    contents: Seq<u8>,
    i: int,
)
    ensures
        searched(query, partials, files).len() <= 128,
        searched_part(contents).len() <= 65_536,
        contents.len() <= 65_536 ==> searched_part(contents) == contents,
        contents.len() > 65_536 ==> searched_part(contents) == contents.take(65_536),
        normalized(query).len() == 0 ==> searched(query, partials, files).len() == 0,
        normalized(query).len() > 0 && 0 <= i < files.len() ==> searched(
            query,
            partials,
            files,
        ).contains(files[i]) || (searched(query, partials, files).len() == 128 && forall|j: int|
            0 <= j < 128 ==> rank_order(normalized(query), partials, Seq::empty())(
                #[trigger] searched(query, partials, files)[j],
                files[i],
            )),
{
    broadcast use vstd::seq_lib::group_to_multiset_ensures;

    if contents.len() > 65_536 {
        assert(contents.subrange(0, 65_536) =~= contents.take(65_536));
    }
    let tokens = normalized(query);
    if tokens.len() > 0 && 0 <= i < files.len() {
        let rank = rank_order(tokens, partials, Seq::empty());
        let ranked = order::sorted_by(files, rank);
        let hits = searched(query, partials, files);
        let x = files[i];
        order::lemma_sorted_by_permutes(files, rank);
        lemma_rank_preorder(tokens, partials, Seq::empty());
        order::lemma_sorted_by_in_order(files, rank);
        assert(files.contains(x));
        assert(files.to_multiset().count(x) > 0);
        assert(ranked.to_multiset().count(x) > 0);
        assert(ranked.contains(x));
        let at = choose|at: int| 0 <= at < ranked.len() && ranked[at] == x;
        if at < hits.len() {
            assert(hits[at] == x);
        } else {
            assert forall|j: int| 0 <= j < 128 implies rank(#[trigger] hits[j], x) by {
                assert(hits[j] == ranked[j]);
                assert(ranked[at] == x);
            }
        }
    }
}

/// Every searched file that matches is evidence, by the score of its beginning.
pub proof fn law_searched_files_are_evidence(
    query: Seq<Seq<char>>,
    files: Seq<SearchedFile>,
    i: int,
)
    requires
        0 <= i < files.len(),
        files[i].contents is Some,
        content_score(query, searched_part(files[i].contents->0@)) != zero_score(),
    ensures
        evidence(query, files).contains(
            (files[i].path@, content_score(query, searched_part(files[i].contents->0@))),
        ),
    decreases files.len(),
{
    let wanted = (files[i].path@, content_score(query, searched_part(files[i].contents->0@)));
    let init = evidence(query, files.drop_last());
    let out = evidence(query, files);
    if i < files.len() - 1 {
        law_searched_files_are_evidence(query, files.drop_last(), i);
        let k = choose|k: int| 0 <= k < init.len() && init[k] == wanted;
        assert(out[k] == wanted);
    } else {
        assert(out[init.len() as int] == wanted);
    }
}

/// A ranked file is found on disk where it was found, and the answers stand in
/// the order of the ranking.
pub proof fn law_answers_are_where_the_files_are(
    found: Seq<ValidatedModel>,
    ranked: Seq<FileModel>,
    more: Seq<FileModel>,
    i: int,
)
    ensures
        0 <= i < found.len() && (forall|j: int|
            0 <= j < i ==> (#[trigger] found[j]).context.path != found[i].context.path)
            ==> disk_path(found, found[i].context.path) == Some(found[i].absolute_path),
        disk_paths(found, ranked + more) == disk_paths(found, ranked) + disk_paths(found, more),
{
    if 0 <= i < found.len() && (forall|j: int|
        0 <= j < i ==> (#[trigger] found[j]).context.path != found[i].context.path) {
        lemma_disk_path_at(found, i);
    }
    lemma_disk_paths_split(found, ranked, more);
}

proof fn lemma_disk_path_at(found: Seq<ValidatedModel>, i: int)
    requires
        0 <= i < found.len(),
        forall|j: int| 0 <= j < i ==> (#[trigger] found[j]).context.path != found[i].context.path,
    ensures
        disk_path(found, found[i].context.path) == Some(found[i].absolute_path),
    decreases i,
{
    if i > 0 {
        let rest = found.subrange(1, found.len() as int);
        assert(found[0].context.path != found[i].context.path);
        assert forall|j: int| 0 <= j < i - 1 implies (#[trigger] rest[j]).context.path != rest[i
            - 1].context.path by {
            assert(rest[j] == found[j + 1]);
        }
        assert(rest[i - 1] == found[i]);
        lemma_disk_path_at(rest, i - 1);
    }
}

proof fn lemma_disk_paths_split(
    found: Seq<ValidatedModel>,
    ranked: Seq<FileModel>,
    more: Seq<FileModel>,
)
    ensures
        disk_paths(found, ranked + more) == disk_paths(found, ranked) + disk_paths(found, more),
    decreases more.len(),
{
    if more.len() > 0 {
        assert((ranked + more).drop_last() =~= ranked + more.drop_last());
        lemma_disk_paths_split(found, ranked, more.drop_last());
        assert(disk_paths(found, ranked + more) =~= disk_paths(found, ranked) + disk_paths(
            found,
            more,
        ));
    } else {
        assert(ranked + more =~= ranked);
        assert(disk_paths(found, ranked + more) =~= disk_paths(found, ranked) + disk_paths(
            found,
            more,
        ));
    }
}

/// A request that goes on waits under its action, with what it takes to abort
/// it or to tell its answer.
pub proof fn law_started_requests_wait<L, R>(
    pending: Seq<(Seq<char>, HandleModel)>,
    action: Seq<char>,
    root: String,
    id: u64,
    task: u64,
    outline: Result<L, GetRelevantFilesError>,
    after: Seq<(Seq<char>, HandleModel)>,
    r: Result<Option<GetRelevantFilesControllerEvent<L, R>>, GetRelevantFilesError>,
)
    requires
        one_each(pending),
    ensures
        noted(
            without(pending, action),
            action,
            StartedRequest::Local { retrieval: Some((root, id)), outline },
            after,
            r,
        ) ==> pending_of(after, action) == Some(
            RequestHandle::<Seq<char>>::RetrievalID { repo_path: root@, retrieval_id: id },
        ) && r is Ok && r->Ok_0 is None,
        noted(without(pending, action), action, StartedRequest::<L, R>::Remote(Err(task)), after, r)
            ==> pending_of(after, action) == Some(RequestHandle::<Seq<char>>::AbortHandle(task))
            && r is Ok && r->Ok_0 is None,
{
    let rest = without(pending, action);
    lemma_without(pending, action);
    let first = rest.push(
        (action, RequestHandle::<Seq<char>>::RetrievalID { repo_path: root@, retrieval_id: id }),
    );
    let second = rest.push((action, RequestHandle::<Seq<char>>::AbortHandle(task)));
    assert(first.drop_last() =~= rest);
    assert(second.drop_last() =~= rest);
    lemma_pushed_pending(rest, first, action);
    lemma_pushed_pending(rest, second, action);
}

proof fn lemma_pushed_pending(
    rest: Seq<(Seq<char>, HandleModel)>,
    after: Seq<(Seq<char>, HandleModel)>,
    action: Seq<char>,
)
    requires
        after.len() == rest.len() + 1,
        after.drop_last() == rest,
        after.last().0 == action,
        forall|i: int| 0 <= i < rest.len() ==> (#[trigger] rest[i]).0 != action,
    ensures
        pending_of(after, action) == Some(after.last().1),
{
    lemma_pending_at(after, action, 0);
    let at = pending_at(after, action, 0);
    assert(after[after.len() - 1].0 == action);
    if at < rest.len() {
        assert(rest[at] == after[at]);
    }
}

/// An answer of the full-source index goes to the action that waits for it.
pub proof fn law_answers_go_to_the_waiting_action(
    pending: Seq<(Seq<char>, HandleModel)>,
    retrieval: u64,
    k: int,
)
    requires
        0 <= k < pending.len(),
        pending[k].1 is RetrievalID,
        pending[k].1->retrieval_id == retrieval,
        forall|j: int|
            0 <= j < k && (#[trigger] pending[j]).1 is RetrievalID ==> pending[j].1->retrieval_id
                != retrieval,
    ensures
        retrieval_at(pending, retrieval, 0) == k,
{
    lemma_retrieval_at(pending, retrieval, k, 0);
}

proof fn lemma_retrieval_at(
    pending: Seq<(Seq<char>, HandleModel)>,
    retrieval: u64,
    k: int,
    from: int,
)
    requires
        0 <= from <= k < pending.len(),
        pending[k].1 is RetrievalID,
        pending[k].1->retrieval_id == retrieval,
        forall|j: int|
            0 <= j < k && (#[trigger] pending[j]).1 is RetrievalID ==> pending[j].1->retrieval_id
                != retrieval,
    ensures
        retrieval_at(pending, retrieval, from) == k,
    decreases k - from,
{
    if from < k {
        assert(pending[from].1 is RetrievalID ==> pending[from].1->retrieval_id != retrieval);
        lemma_retrieval_at(pending, retrieval, k, from + 1);
    }
}

/// An outline can be searched exactly where it is complete.
pub proof fn law_complete_outlines_are_searched(status: Option<OutlineStatus>)
    ensures
        outline_problem(status) is None <==> status == Some(OutlineStatus::Complete),
        status == Some(OutlineStatus::Pending) <==> outline_problem(status) == Some(
            GetRelevantFilesError::Pending,
        ),
        status is None <==> outline_problem(status) == Some(GetRelevantFilesError::Missing),
{
}

/// What a search ends with is told of its action: what was found, or that it
/// failed.
pub proof fn law_outcomes_are_told_of_their_action<L, R>(
    outcome: Result<L, String>,
    event: GetRelevantFilesControllerEvent<L, R>,
    action: Seq<char>,
)
    requires
        outcome_event(outcome, event, action),
    ensures
        event_action(event) == action,
        outcome is Ok ==> event is Success && event->result
            == GetRelevantFilesControllerResult::<L, R>::Locations(outcome->Ok_0),
        outcome is Err ==> event is Error,
{
}

} // verus!
