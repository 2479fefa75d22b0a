//! The local index of a codebase: where its embeddings come from, which chunks
//! belong to a version of the codebase, and how fragments are ranked.

use crate::digest;
use crate::json_text;
use crate::order;
use crate::order::Ordered;
use crate::text;
use crate::tokens;
use vstd::prelude::*;

verus! {

/// The time between two rounds of embedding, in seconds.
pub const EMBEDDING_CADENCE_SECONDS: u64 = 300;

/// The largest number of fragments that a query returns.
pub const MAX_RELEVANT_FRAGMENTS: usize = 64;

/// The largest number of dimensions of an embedding.
pub const MAX_EMBEDDING_DIMENSIONS: usize = 16_384;

/// The largest part of an error response that is told, in characters.
pub const MAX_ERROR_BODY_CHARS: usize = 4_096;

// ---------------------------------------------------------------------------
// Routes.

/// A configured provider and model, with whether it makes embeddings.
pub struct EmbeddingRoute<S = String> {
    pub provider_name: S,
    pub base_url: S,
    pub model: S,
    pub api_key: Option<S>,
    pub embeddings: bool,
}

pub type RouteModel = EmbeddingRoute<Seq<char>>;

impl View for EmbeddingRoute<String> {
    type V = RouteModel;

    open spec fn view(&self) -> RouteModel {
        EmbeddingRoute {
            provider_name: self.provider_name@,
            base_url: self.base_url@,
            model: self.model@,
            api_key: text::text_opt(self.api_key),
            embeddings: self.embeddings,
        }
    }
}

impl Clone for EmbeddingRoute<String> {
    fn clone(&self) -> (r: Self)
        ensures
            r@ == self@,
    {
        EmbeddingRoute {
            provider_name: self.provider_name.clone(),
            base_url: self.base_url.clone(),
            model: self.model.clone(),
            api_key: text::clone_opt(&self.api_key),
            embeddings: self.embeddings,
        }
    }
}

/// A text without the slashes at its end.
pub open spec fn without_slashes(s: Seq<char>) -> Seq<char>
    decreases s.len(),
{
    if s.len() > 0 && s.last() == '/' {
        without_slashes(s.drop_last())
    } else {
        s
    }
}

fn trim_slashes(s: &str) -> (r: String)
    ensures
        r@ == without_slashes(s@),
{
    let chars = text::chars_of(s);
    let mut end: usize = chars.len();
    assert(chars@.subrange(0, chars@.len() as int) =~= s@);
    while end > 0 && chars[end - 1] == '/'
        invariant
            end <= chars.len(),
            chars@ == s@,
            without_slashes(s@) == without_slashes(s@.subrange(0, end as int)),
        decreases end,
    {
        assert(s@.subrange(0, end as int).drop_last() =~= s@.subrange(0, end - 1));
        end -= 1;
    }
    text::string_from(&chars, 0, end)
}

/// A text in bytes.
pub open spec fn bytes_of(s: Seq<char>) -> Seq<u8> {
    vstd::utf8::encode_utf8(s)
}

/// What the vectors of a route depend on.
pub open spec fn space_fields(route: RouteModel) -> Seq<Seq<u8>> {
    seq![
        bytes_of(route.provider_name),
        bytes_of(without_slashes(route.base_url)),
        bytes_of(route.model),
        bytes_of("openai-compatible-f32-v1"@),
    ]
}

/// The identity of the vector space of a route.
pub open spec fn space_of(route: RouteModel) -> Seq<char> {
    digest::digest_of(digest::framed(space_fields(route)))
}

/// The fingerprint of an API key; empty where there is none.
pub open spec fn key_fingerprint(api_key: Option<Seq<char>>) -> Seq<char> {
    match api_key {
        Some(key) => digest::digest_of(digest::framed(seq![bytes_of(key)])),
        None => Seq::empty(),
    }
}

/// The identity of a route in use: its vector space and its key.
pub open spec fn operational_of(route: RouteModel) -> Seq<char> {
    digest::digest_of(
        digest::framed(seq![bytes_of(space_of(route)), bytes_of(key_fingerprint(route.api_key))]),
    )
}

fn byte_field(s: &str) -> (r: Vec<u8>)
    ensures
        r@ == bytes_of(s@),
{
    let bytes = s.as_bytes();
    let mut out: Vec<u8> = Vec::new();
    let mut i: usize = 0;
    assert(bytes@.subrange(0, 0) =~= Seq::<u8>::empty());
    while i < bytes.len()
        invariant
            i <= bytes.len(),
            out@ == bytes@.subrange(0, i as int),
        decreases bytes.len() - i,
    {
        out.push(bytes[i]);
        i += 1;
        assert(bytes@.subrange(0, i as int) =~= bytes@.subrange(0, i - 1).push(bytes@[i - 1]));
    }
    assert(bytes@.subrange(0, bytes@.len() as int) =~= bytes@);
    out
}

/// The identity of the vector space of a route.
pub fn route_space_id(route: &EmbeddingRoute) -> (r: String)
    ensures
        r@ == space_of(route@),
{
    let mut fields: Vec<Vec<u8>> = Vec::new();
    fields.push(byte_field(route.provider_name.as_str()));
    fields.push(byte_field(trim_slashes(route.base_url.as_str()).as_str()));
    fields.push(byte_field(route.model.as_str()));
    fields.push(byte_field("openai-compatible-f32-v1"));
    assert(digest::fields_of(fields@) =~= space_fields(route@));
    digest::digest_fields(&fields)
}

/// The identity of a route in use.
pub fn route_operational_id(route: &EmbeddingRoute) -> (r: String)
    ensures
        r@ == operational_of(route@),
{
    let space = route_space_id(route);
    let fingerprint = match &route.api_key {
        Some(key) => {
            let mut fields: Vec<Vec<u8>> = Vec::new();
            fields.push(byte_field(key.as_str()));
            assert(digest::fields_of(fields@) =~= seq![bytes_of(key@)]);
            digest::digest_fields(&fields)
        },
        None => {
            let none = String::new();
            assert(none@ =~= Seq::<char>::empty());
            none
        },
    };
    let mut fields: Vec<Vec<u8>> = Vec::new();
    fields.push(byte_field(space.as_str()));
    fields.push(byte_field(fingerprint.as_str()));
    assert(digest::fields_of(fields@) =~= seq![
        bytes_of(space_of(route@)),
        bytes_of(key_fingerprint(route@.api_key)),
    ]);
    digest::digest_fields(&fields)
}

/// The key that a request carries: one that is not blank.
pub fn bearer_key(route: &EmbeddingRoute) -> (r: Option<String>)
    ensures
        text::text_opt(r) == (match route@.api_key {
            Some(key) => if text::is_blank(key) {
                None
            } else {
                Some(key)
            },
            None => None,
        }),
{
    match &route.api_key {
        Some(key) => if text::blank(key.as_str()) {
            None
        } else {
            Some(key.clone())
        },
        None => None,
    }
}

/// A route that makes embeddings, with its identities.
#[derive(Clone)]
pub struct ReadyRoute {
    pub route: EmbeddingRoute,
    pub space_id: String,
    pub operational_id: String,
}

/// Whether the index has a route, or why it has none.
pub enum RouteState {
    Disabled(String),
    Ready(ReadyRoute),
}

/// What a state says.
pub enum StateModel {
    Disabled(Seq<char>),
    Ready(RouteModel),
}

impl RouteState {
    /// Whether the identities are those of the route.
    pub open spec fn wf(&self) -> bool {
        match self {
            RouteState::Disabled(_) => true,
            RouteState::Ready(ready) => ready.space_id@ == space_of(ready.route@)
                && ready.operational_id@ == operational_of(ready.route@),
        }
    }
}

impl View for RouteState {
    type V = StateModel;

    open spec fn view(&self) -> StateModel {
        match self {
            RouteState::Disabled(reason) => StateModel::Disabled(reason@),
            RouteState::Ready(ready) => StateModel::Ready(ready.route@),
        }
    }
}

/// The state that a route leads to.
pub open spec fn next_state(route: Result<Option<RouteModel>, Seq<char>>) -> StateModel {
    match route {
        Ok(Some(route)) => if route.embeddings {
            StateModel::Ready(route)
        } else {
            StateModel::Disabled(
                "Custom provider `"@ + route.provider_name
                    + "` does not have an effective embeddings capability."@,
            )
        },
        Ok(None) => StateModel::Disabled(
            "No custom provider with embeddings and an embedding model is configured."@,
        ),
        Err(e) => StateModel::Disabled(e),
    }
}

/// Whether another attempt may now have another outcome.
pub open spec fn state_changed(before: StateModel, after: StateModel) -> bool {
    match (before, after) {
        (StateModel::Disabled(a), StateModel::Disabled(b)) => a != b,
        (StateModel::Ready(a), StateModel::Ready(b)) => operational_of(a) != operational_of(b),
        _ => true,
    }
}

pub open spec fn route_model(route: Result<Option<EmbeddingRoute>, String>) -> Result<
    Option<RouteModel>,
    Seq<char>,
> {
    match route {
        Ok(Some(route)) => Ok(Some(route@)),
        Ok(None) => Ok(None),
        Err(e) => Err(e@),
    }
}

/// The route of an index.
pub struct IndexRoute {
    state: RouteState,
}

impl View for IndexRoute {
    type V = StateModel;

    closed spec fn view(&self) -> StateModel {
        self.state@
    }
}

impl IndexRoute {
    pub closed spec fn wf(&self) -> bool {
        self.state.wf()
    }

    /// An index that no route was looked up for yet.
    pub fn new() -> (r: Self)
        ensures
            r.wf(),
            r@ == StateModel::Disabled("No custom provider with embeddings is configured."@),
    {
        IndexRoute {
            state: RouteState::Disabled(
                "No custom provider with embeddings is configured.".to_owned(),
            ),
        }
    }

    pub fn is_ready(&self) -> (r: bool)
        ensures
            r == (self@ is Ready),
    {
        match &self.state {
            RouteState::Ready(_) => true,
            RouteState::Disabled(_) => false,
        }
    }

    /// Takes a route that was looked up. Tells whether another attempt may now
    /// have another outcome.
    pub fn set_route_result(&mut self, route: Result<Option<EmbeddingRoute>, String>) -> (r: bool)
        requires
            old(self).wf(),
        ensures
            final(self).wf(),
            final(self)@ == next_state(route_model(route)),
            r == state_changed(old(self)@, final(self)@),
    {
        let next = match route {
            Ok(Some(route)) => if route.embeddings {
                let space_id = route_space_id(&route);
                let operational_id = route_operational_id(&route);
                RouteState::Ready(ReadyRoute { route, space_id, operational_id })
            } else {
                RouteState::Disabled(
                    text::concat3(
                        "Custom provider `",
                        route.provider_name.as_str(),
                        "` does not have an effective embeddings capability.",
                    ),
                )
            },
            Ok(None) => RouteState::Disabled(
                "No custom provider with embeddings and an embedding model is configured.".to_owned(
                ),
            ),
            Err(error) => RouteState::Disabled(error),
        };
        let changed = match (&self.state, &next) {
            (RouteState::Disabled(a), RouteState::Disabled(b)) => !text::same_text(
                a.as_str(),
                b.as_str(),
            ),
            (RouteState::Ready(a), RouteState::Ready(b)) => !text::same_text(
                a.operational_id.as_str(),
                b.operational_id.as_str(),
            ),
            _ => true,
        };
        self.state = next;
        changed
    }

    /// The route with the identity of its vector space, or why there is none.
    pub fn ready_route(&self) -> (r: Result<(EmbeddingRoute, String), String>)
        requires
            self.wf(),
        ensures
            match r {
                Ok(found) => self@ == StateModel::Ready(found.0@) && found.1@ == space_of(
                    found.0@,
                ),
                Err(reason) => self@ == StateModel::Disabled(reason@),
            },
    {
        match &self.state {
            RouteState::Ready(ready) => Ok((ready.route.clone(), ready.space_id.clone())),
            RouteState::Disabled(reason) => Err(reason.clone()),
        }
    }
}

/// What is told of an error response.
pub fn endpoint_error(status: &str, body: &str) -> (r: String)
    ensures
        r@ == "OpenAI-compatible embeddings endpoint returned "@ + status@ + ": "@
            + text::first_chars(body@, MAX_ERROR_BODY_CHARS as int),
{
    let chars = text::chars_of(body);
    let end: usize = if chars.len() < MAX_ERROR_BODY_CHARS {
        chars.len()
    } else {
        MAX_ERROR_BODY_CHARS
    };
    let start = text::string_from(&chars, 0, end);
    assert(start@ =~= text::first_chars(body@, MAX_ERROR_BODY_CHARS as int));
    text::concat4(
        "OpenAI-compatible embeddings endpoint returned ",
        status,
        ": ",
        start.as_str(),
    )
}

// ---------------------------------------------------------------------------
// Embeddings.

/// One embedding of a response: which input it is for, how many dimensions it
/// has, and whether all of them are finite.
#[derive(Clone, Copy, Debug, PartialEq, Eq, Structural)]
pub struct EmbeddingShape {
    pub index: usize,
    pub dimensions: usize,
    pub finite: bool,
}

/// Whether an earlier embedding is for the same input.
pub open spec fn repeats(data: Seq<EmbeddingShape>, k: int) -> bool {
    exists|j: int| 0 <= j < k && (#[trigger] data[j]).index == data[k].index
}

/// What is wrong with an embedding of a response, if anything.
pub open spec fn embedding_problem(
    data: Seq<EmbeddingShape>,
    k: int,
    expected: int,
) -> Option<Seq<char>> {
    let item = data[k];
    if item.index >= expected || repeats(data, k) {
        Some("Embeddings endpoint returned duplicate or out-of-range indices"@)
    } else if item.dimensions == 0 || item.dimensions > MAX_EMBEDDING_DIMENSIONS || !item.finite {
        Some("Embeddings endpoint returned an invalid float vector"@)
    } else if k > 0 && item.dimensions != data[k - 1].dimensions {
        Some("Embeddings endpoint returned inconsistent vector dimensions"@)
    } else {
        None
    }
}

/// The first thing that is wrong among the first `n` embeddings, if anything.
pub open spec fn first_problem(
    data: Seq<EmbeddingShape>,
    n: int,
    expected: int,
) -> Option<Seq<char>>
    decreases n,
{
    if n <= 0 {
        None
    } else if first_problem(data, n - 1, expected) is Some {
        first_problem(data, n - 1, expected)
    } else {
        embedding_problem(data, n - 1, expected)
    }
}

/// What is wrong with a response, if anything.
pub open spec fn response_problem(data: Seq<EmbeddingShape>, expected: int) -> Option<Seq<char>> {
    if data.len() != expected {
        Some(
            "Embeddings endpoint returned "@ + text::decimal(data.len()) + " vectors for "@
                + text::decimal(expected as nat) + " inputs"@,
        )
    } else {
        first_problem(data, data.len() as int, expected)
    }
}

proof fn lemma_first_problem(data: Seq<EmbeddingShape>, n: int, m: int, expected: int)
    requires
        0 <= n <= m,
        first_problem(data, n, expected) is Some,
    ensures
        first_problem(data, m, expected) == first_problem(data, n, expected),
    decreases m - n,
{
    if n < m {
        lemma_first_problem(data, n, m - 1, expected);
    }
}

/// As many different indices as inputs leave no input out.
proof fn lemma_all_inputs(data: Seq<EmbeddingShape>, i: int)
    requires
        forall|k: int|
            0 <= k < data.len() ==> (#[trigger] data[k]).index < data.len() && !repeats(data, k),
        0 <= i < data.len(),
    ensures
        exists|k: int| 0 <= k < data.len() && (#[trigger] data[k]).index == i,
{
    let indices = Seq::new(data.len(), |k: int| data[k].index as int);
    let all = vstd::set_lib::set_int_range(0, data.len() as int);
    assert(indices.no_duplicates()) by {
        assert forall|a: int, b: int|
            0 <= a < indices.len() && 0 <= b < indices.len() && a != b implies indices[a]
            != indices[b] by {
            if a < b {
                assert(!repeats(data, b));
                assert(data[a].index != data[b].index);
            } else {
                assert(!repeats(data, a));
                assert(data[b].index != data[a].index);
            }
        }
    }
    indices.unique_seq_to_set();
    vstd::set_lib::lemma_int_range(0, data.len() as int);
    let found = indices.to_set();
    assert(found.subset_of(all)) by {
        assert forall|x: int| found.contains(x) implies all.contains(x) by {
            let k = choose|k: int| 0 <= k < indices.len() && indices[k] == x;
            assert(data[k].index < data.len());
        }
    }
    vstd::seq_lib::seq_to_set_is_finite(indices);
    vstd::set_lib::lemma_subset_equality(found, all);
    assert(all.contains(i));
    assert(found.contains(i));
    let k = choose|k: int| 0 <= k < indices.len() && indices[k] == i;
    assert(data[k].index == i);
}

fn has_index(data: &Vec<EmbeddingShape>, k: usize) -> (r: bool)
    requires
        k < data.len(),
    ensures
        r == repeats(data@, k as int),
{
    let mut j: usize = 0;
    while j < k
        invariant
            j <= k < data.len(),
            forall|a: int| 0 <= a < j ==> (#[trigger] data@[a]).index != data@[k as int].index,
        decreases k - j,
    {
        if data[j].index == data[k].index {
            return true;
        }
        j += 1;
    }
    false
}

/// Checks a response and tells, for each input, the position of its embedding.
pub fn validate_embeddings_response(data: &Vec<EmbeddingShape>, expected: usize) -> (r: Result<
    Vec<usize>,
    String,
>)
    ensures
        match r {
            Ok(positions) => response_problem(data@, expected as int) is None && positions.len()
                == expected && forall|i: int|
                0 <= i < expected ==> (#[trigger] positions@[i]) < data.len()
                    && data@[positions@[i] as int].index == i,
            Err(e) => response_problem(data@, expected as int) == Some(e@),
        },
{
    if data.len() != expected {
        return Err(
            text::concat5(
                "Embeddings endpoint returned ",
                text::decimal_usize(data.len()).as_str(),
                " vectors for ",
                text::decimal_usize(expected).as_str(),
                " inputs",
            ),
        );
    }
    let mut k: usize = 0;
    while k < data.len()
        invariant
            k <= data.len(),
            data.len() == expected,
            first_problem(data@, k as int, expected as int) is None,
            forall|a: int|
                0 <= a < k ==> (#[trigger] data@[a]).index < expected && !repeats(data@, a),
        decreases data.len() - k,
    {
        let item = data[k];
        let problem = if item.index >= expected || has_index(data, k) {
            Some("Embeddings endpoint returned duplicate or out-of-range indices")
        } else if item.dimensions == 0 || item.dimensions > MAX_EMBEDDING_DIMENSIONS
            || !item.finite {
            Some("Embeddings endpoint returned an invalid float vector")
        } else if k > 0 && item.dimensions != data[k - 1].dimensions {
            Some("Embeddings endpoint returned inconsistent vector dimensions")
        } else {
            None
        };
        if let Some(problem) = problem {
            proof {
                lemma_first_problem(data@, k + 1, data@.len() as int, expected as int);
            }
            return Err(problem.to_owned());
        }
        k += 1;
    }
    let mut positions: Vec<usize> = Vec::new();
    let mut i: usize = 0;
    while i < expected
        invariant
            i <= expected,
            data.len() == expected,
            positions.len() == i,
            forall|a: int|
                0 <= a < data@.len() ==> (#[trigger] data@[a]).index < data@.len() && !repeats(
                    data@,
                    a,
                ),
            forall|a: int|
                0 <= a < i ==> (#[trigger] positions@[a]) < data.len()
                    && data@[positions@[a] as int].index == a,
        decreases expected - i,
    {
        proof {
            lemma_all_inputs(data@, i as int);
        }
        let mut at: usize = 0;
        while at < data.len() && data[at].index != i
            invariant
                at <= data.len(),
                forall|a: int| 0 <= a < at ==> (#[trigger] data@[a]).index != i,
            decreases data.len() - at,
        {
            at += 1;
        }
        assert(at < data.len());
        positions.push(at);
        i += 1;
    }
    Ok(positions)
}

/// Whether the bits of a 32-bit float are those of a finite number: the
/// exponent is not all ones.
pub open spec fn finite_bits(bits: u32) -> bool {
    bits & 0x7f80_0000 != 0x7f80_0000
}

/// The four bytes of a number, the lowest first.
pub open spec fn le_four(bits: u32) -> Seq<u8> {
    seq![
        (bits % 256) as u8,
        (bits / 256 % 256) as u8,
        (bits / 65_536 % 256) as u8,
        (bits / 16_777_216) as u8,
    ]
}

/// The bits of floats in bytes.
pub open spec fn encoded(vector: Seq<u32>) -> Seq<u8>
    decreases vector.len(),
{
    if vector.len() == 0 {
        Seq::empty()
    } else {
        encoded(vector.drop_last()) + le_four(vector.last())
    }
}

/// Writes the bits of floats as bytes.
pub fn encode_vector(vector: &Vec<u32>) -> (r: Vec<u8>)
    ensures
        r@ == encoded(vector@),
{
    let mut out: Vec<u8> = Vec::new();
    let mut i: usize = 0;
    assert(vector@.subrange(0, 0) =~= Seq::<u32>::empty());
    while i < vector.len()
        invariant
            i <= vector.len(),
            out@ == encoded(vector@.subrange(0, i as int)),
        decreases vector.len() - i,
    {
        let bits: u32 = vector[i];
        let ghost before = out@;
        out.push((bits % 256) as u8);
        out.push((bits / 256 % 256) as u8);
        out.push((bits / 65_536 % 256) as u8);
        out.push((bits / 16_777_216) as u8);
        assert(out@ =~= before + le_four(bits));
        assert(vector@.subrange(0, i + 1).drop_last() =~= vector@.subrange(0, i as int));
        i += 1;
    }
    assert(vector@.subrange(0, vector@.len() as int) =~= vector@);
    out
}

/// The number of four bytes, the lowest first.
pub open spec fn from_four(a: u8, b: u8, c: u8, d: u8) -> u32 {
    (a + 256 * b + 65_536 * c + 16_777_216 * d) as u32
}

/// The bits of the floats that bytes stand for.
pub open spec fn decoded(bytes: Seq<u8>) -> Seq<u32> {
    Seq::new(
        bytes.len() / 4,
        |i: int| from_four(bytes[4 * i], bytes[4 * i + 1], bytes[4 * i + 2], bytes[4 * i + 3]),
    )
}

/// What is wrong with a stored vector, if anything.
pub open spec fn stored_problem(bytes: Seq<u8>) -> Option<Seq<char>> {
    if bytes.len() == 0 || bytes.len() % 4 != 0 {
        Some("Stored embedding vector is malformed"@)
    } else if bytes.len() / 4 > MAX_EMBEDDING_DIMENSIONS || exists|i: int|
        0 <= i < decoded(bytes).len() && !finite_bits(#[trigger] decoded(bytes)[i]) {
        Some("Stored embedding vector is invalid"@)
    } else {
        None
    }
}

/// Reads the bits of floats from bytes.
pub fn decode_vector(bytes: &Vec<u8>) -> (r: Result<Vec<u32>, String>)
    ensures
        match r {
            Ok(vector) => stored_problem(bytes@) is None && vector@ == decoded(bytes@),
            Err(e) => stored_problem(bytes@) == Some(e@),
        },
{
    if bytes.len() == 0 || bytes.len() % 4 != 0 {
        return Err("Stored embedding vector is malformed".to_owned());
    }
    let count: usize = bytes.len() / 4;
    let mut out: Vec<u32> = Vec::new();
    let mut finite = true;
    let ghost all = decoded(bytes@);
    let mut i: usize = 0;
    while i < count
        invariant
            i <= count,
            count == bytes@.len() / 4,
            bytes@.len() == 4 * count,
            all == decoded(bytes@),
            out.len() == i,
            forall|j: int| 0 <= j < i ==> (#[trigger] out@[j]) == all[j],
            finite == forall|j: int| 0 <= j < i ==> finite_bits(#[trigger] all[j]),
        decreases count - i,
    {
        assert(4 * i + 3 < bytes.len());
        let a = bytes[4 * i] as u32;
        let b = bytes[4 * i + 1] as u32;
        let c = bytes[4 * i + 2] as u32;
        let d = bytes[4 * i + 3] as u32;
        let bits: u32 = a + 256 * b + 65_536 * c + 16_777_216 * d;
        assert(all[i as int] == bits);
        if bits & 0x7f80_0000 == 0x7f80_0000 {
            assert(!finite_bits(all[i as int]));
            finite = false;
        }
        out.push(bits);
        i += 1;
    }
    if count > MAX_EMBEDDING_DIMENSIONS || !finite {
        return Err("Stored embedding vector is invalid".to_owned());
    }
    assert(out@ =~= all);
    Ok(out)
}

// ---------------------------------------------------------------------------
// The Merkle tree.

/// A node of the tree with the hashes of its children.
pub struct TreeNode {
    pub hash: String,
    pub children: Vec<String>,
}

/// What the nodes of a tree say.
pub open spec fn node_models(v: Seq<TreeNode>) -> Seq<(Seq<char>, Seq<Seq<char>>)> {
    Seq::new(v.len(), |i: int| (v[i].hash@, text::texts(v[i].children@)))
}

/// A node as it is stored.
pub struct StoredNode {
    pub hash: String,
    pub children_json: String,
}

/// The node that a row stands for, where `children` is what its list of children
/// was read as.
pub open spec fn node_outcome(
    hash: Seq<char>,
    children: Result<Seq<Seq<char>>, Seq<char>>,
) -> Result<(Seq<char>, Seq<Seq<char>>), Seq<char>> {
    match children {
        Ok(children) => Ok((hash, children)),
        Err(error) => Err("decoding local Merkle children: "@ + error),
    }
}

pub open spec fn node_result(r: Result<TreeNode, String>) -> Result<
    (Seq<char>, Seq<Seq<char>>),
    Seq<char>,
> {
    match r {
        Ok(node) => Ok((node.hash@, text::texts(node.children@))),
        Err(error) => Err(error@),
    }
}

/// Makes a node of a hash and what its list of children was read as.
pub fn node_from_row_as(hash: String, children: Result<Vec<String>, String>) -> (r: Result<
    TreeNode,
    String,
>)
    ensures
        node_result(r) == node_outcome(hash@, json_text::array_outcome(children)),
{
    match children {
        Ok(children) => Ok(TreeNode { hash, children }),
        Err(error) => Err(text::joined("decoding local Merkle children: ", error.as_str())),
    }
}

/// Reads a stored node.
pub fn node_from_row(row: StoredNode) -> (r: Result<TreeNode, String>)
    ensures
        node_result(r) == node_outcome(row.hash@, json_text::parsed_array(row.children_json@)),
{
    let children = json_text::read_array(row.children_json.as_str());
    node_from_row_as(row.hash, children)
}

/// A node in the form in which it is stored.
pub fn row_of_node(node: &TreeNode) -> (r: StoredNode)
    ensures
        r.hash@ == node.hash@,
        r.children_json@ == json_text::json_array(text::texts(node.children@)),
        node_outcome(r.hash@, json_text::parsed_array(r.children_json@)) == Ok::<
            (Seq<char>, Seq<Seq<char>>),
            Seq<char>,
        >((node.hash@, text::texts(node.children@))),
{
    StoredNode { hash: node.hash.clone(), children_json: json_text::write_array(&node.children) }
}

/// The position of a node, or their number.
pub open spec fn node_at(nodes: Seq<(Seq<char>, Seq<Seq<char>>)>, hash: Seq<char>, from: int) -> int
    decreases nodes.len() - from,
{
    if from >= nodes.len() {
        nodes.len() as int
    } else if nodes[from].0 == hash {
        from
    } else {
        node_at(nodes, hash, from + 1)
    }
}

/// The children of a node, if it is known.
pub open spec fn children_of(nodes: Seq<(Seq<char>, Seq<Seq<char>>)>, hash: Seq<char>) -> Option<
    Seq<Seq<char>>,
> {
    let at = node_at(nodes, hash, 0);
    if 0 <= at < nodes.len() {
        Some(nodes[at].1)
    } else {
        None
    }
}

/// Whether a node leads to a hash. A chunk leads nowhere.
pub open spec fn leads(
    nodes: Seq<(Seq<char>, Seq<Seq<char>>)>,
    chunks: Seq<Seq<char>>,
    from: Seq<char>,
    to: Seq<char>,
) -> bool {
    !chunks.contains(from) && match children_of(nodes, from) {
        Some(children) => children.contains(to),
        None => false,
    }
}

/// Whether a hash is reached from a root in a number of steps.
pub open spec fn reached_in(
    nodes: Seq<(Seq<char>, Seq<Seq<char>>)>,
    chunks: Seq<Seq<char>>,
    root: Seq<char>,
    hash: Seq<char>,
    steps: nat,
) -> bool
    decreases steps,
{
    if steps == 0 {
        hash == root
    } else {
        exists|via: Seq<char>|
            reached_in(nodes, chunks, root, via, (steps - 1) as nat) && #[trigger] leads(
                nodes,
                chunks,
                via,
                hash,
            )
    }
}

/// Whether a hash is reached from a root.
pub open spec fn reached(
    nodes: Seq<(Seq<char>, Seq<Seq<char>>)>,
    chunks: Seq<Seq<char>>,
    root: Seq<char>,
    hash: Seq<char>,
) -> bool {
    exists|steps: nat| reached_in(nodes, chunks, root, hash, steps)
}

/// Whether a hash is neither a chunk nor a node.
pub open spec fn is_missing(
    nodes: Seq<(Seq<char>, Seq<Seq<char>>)>,
    chunks: Seq<Seq<char>>,
    hash: Seq<char>,
) -> bool {
    !chunks.contains(hash) && children_of(nodes, hash) is None
}

/// Whether a closed set of hashes with the root holds everything that is
/// reached.
proof fn lemma_closed(
    nodes: Seq<(Seq<char>, Seq<Seq<char>>)>,
    chunks: Seq<Seq<char>>,
    root: Seq<char>,
    closed: Seq<Seq<char>>,
    hash: Seq<char>,
    steps: nat,
)
    requires
        closed.contains(root),
        forall|a: Seq<char>, b: Seq<char>|
            closed.contains(a) && #[trigger] leads(nodes, chunks, a, b) ==> closed.contains(b),
        reached_in(nodes, chunks, root, hash, steps),
    ensures
        closed.contains(hash),
    decreases steps,
{
    if steps > 0 {
        let via = choose|via: Seq<char>|
            reached_in(nodes, chunks, root, via, (steps - 1) as nat) && #[trigger] leads(
                nodes,
                chunks,
                via,
                hash,
            );
        lemma_closed(nodes, chunks, root, closed, via, (steps - 1) as nat);
    }
}

proof fn lemma_step(
    nodes: Seq<(Seq<char>, Seq<Seq<char>>)>,
    chunks: Seq<Seq<char>>,
    root: Seq<char>,
    from: Seq<char>,
    to: Seq<char>,
)
    requires
        reached(nodes, chunks, root, from),
        leads(nodes, chunks, from, to),
    ensures
        reached(nodes, chunks, root, to),
{
    let steps = choose|steps: nat| reached_in(nodes, chunks, root, from, steps);
    assert(reached_in(nodes, chunks, root, from, ((steps + 1) - 1) as nat));
    assert(reached_in(nodes, chunks, root, to, steps + 1));
}

proof fn lemma_node_at(nodes: Seq<(Seq<char>, Seq<Seq<char>>)>, hash: Seq<char>, from: int)
    requires
        0 <= from <= nodes.len(),
    ensures
        from <= node_at(nodes, hash, from) <= nodes.len(),
        node_at(nodes, hash, from) < nodes.len() ==> nodes[node_at(nodes, hash, from)].0 == hash,
    decreases nodes.len() - from,
{
    if from < nodes.len() && nodes[from].0 != hash {
        lemma_node_at(nodes, hash, from + 1);
    }
}

/// Different hashes that are all known are no more than the nodes and chunks.
proof fn lemma_known_bound(
    nodes: Seq<(Seq<char>, Seq<Seq<char>>)>,
    chunks: Seq<Seq<char>>,
    visited: Seq<Seq<char>>,
)
    requires
        visited.no_duplicates(),
        forall|i: int|
            0 <= i < visited.len() ==> !is_missing(nodes, chunks, #[trigger] visited[i]),
    ensures
        visited.len() <= nodes.len() + chunks.len(),
{
    let names = Seq::new(nodes.len(), |i: int| nodes[i].0);
    let known = names + chunks;
    visited.unique_seq_to_set();
    known.lemma_cardinality_of_set();
    vstd::seq_lib::seq_to_set_is_finite(known);
    vstd::seq_lib::seq_to_set_is_finite(visited);
    let a = visited.to_set();
    let b = known.to_set();
    assert(a.subset_of(b)) by {
        assert forall|x: Seq<char>| a.contains(x) implies b.contains(x) by {
            let i = choose|i: int| 0 <= i < visited.len() && visited[i] == x;
            assert(!is_missing(nodes, chunks, visited[i]));
            if chunks.contains(x) {
                let k = choose|k: int| 0 <= k < chunks.len() && chunks[k] == x;
                assert(known[names.len() + k] == x);
            } else {
                lemma_node_at(nodes, x, 0);
                let k = node_at(nodes, x, 0);
                assert(known[k] == names[k]);
            }
        }
    }
    vstd::set_lib::lemma_len_subset(a, b);
}

fn find_node(nodes: &Vec<TreeNode>, hash: &str) -> (r: usize)
    ensures
        r == node_at(node_models(nodes@), hash@, 0),
        r <= nodes.len(),
{
    let ghost all = node_models(nodes@);
    let mut i: usize = 0;
    while i < nodes.len()
        invariant
            i <= nodes.len(),
            all == node_models(nodes@),
            node_at(all, hash@, 0) == node_at(all, hash@, i as int),
        decreases nodes.len() - i,
    {
        assert(all[i as int].0 == nodes@[i as int].hash@);
        if text::same_text(nodes[i].hash.as_str(), hash) {
            return i;
        }
        i += 1;
    }
    i
}

/// Whether a list of hashes is exactly the chunks that are reached.
pub open spec fn is_reachable_set(
    nodes: Seq<(Seq<char>, Seq<Seq<char>>)>,
    chunks: Seq<Seq<char>>,
    root: Seq<char>,
    found: Seq<Seq<char>>,
) -> bool {
    &&& found.no_duplicates()
    &&& forall|hash: Seq<char>| #[trigger]
        found.contains(hash) <==> chunks.contains(hash) && reached(nodes, chunks, root, hash)
}

/// The hashes that are discovered, nearest first, while the first `looked_at` of
/// them are looked at. A node that is looked at for the first time adds its
/// children.
pub open spec fn discovered(
    nodes: Seq<(Seq<char>, Seq<Seq<char>>)>,
    chunks: Seq<Seq<char>>,
    root: Seq<char>,
    looked_at: nat,
) -> Seq<Seq<char>>
    decreases looked_at,
{
    if looked_at == 0 {
        seq![root]
    } else {
        let before = discovered(nodes, chunks, root, (looked_at - 1) as nat);
        let at = looked_at - 1;
        if at >= before.len() || before.subrange(0, at).contains(before[at]) || chunks.contains(
            before[at],
        ) {
            before
        } else {
            match children_of(nodes, before[at]) {
                Some(children) => before + children,
                None => before,
            }
        }
    }
}

/// Whether a hash is the first one, nearest first, that is neither a chunk nor a
/// node.
pub open spec fn first_missing(
    nodes: Seq<(Seq<char>, Seq<Seq<char>>)>,
    chunks: Seq<Seq<char>>,
    root: Seq<char>,
    at: nat,
    hash: Seq<char>,
) -> bool {
    let found = discovered(nodes, chunks, root, at);
    &&& at < found.len()
    &&& found[at as int] == hash
    &&& is_missing(nodes, chunks, hash)
    &&& forall|i: int| 0 <= i < at ==> !is_missing(nodes, chunks, #[trigger] found[i])
}

/// Whether a hash that is reached from a root is the nearest one that is
/// missing.
pub open spec fn is_nearest_missing(
    nodes: Seq<(Seq<char>, Seq<Seq<char>>)>,
    chunks: Seq<Seq<char>>,
    root: Seq<char>,
    hash: Seq<char>,
) -> bool {
    &&& reached(nodes, chunks, root, hash)
    &&& exists|at: nat| first_missing(nodes, chunks, root, at, hash)
}

/// Finds the chunks that belong to a root, or the nearest hash on the way to
/// them that is neither a chunk nor a node.
#[verifier::spinoff_prover]
#[verifier::rlimit(40)]
pub fn reachable_chunks(root: &str, nodes: &Vec<TreeNode>, chunks: &Vec<String>) -> (r: Result<
    Vec<String>,
    String,
>)
    ensures
        match r {
            Ok(found) => is_reachable_set(
                node_models(nodes@),
                text::texts(chunks@),
                root@,
                text::texts(found@),
            ) && forall|hash: Seq<char>| #[trigger]
                reached(node_models(nodes@), text::texts(chunks@), root@, hash) ==> !is_missing(
                    node_models(nodes@),
                    text::texts(chunks@),
                    hash,
                ),
            Err(hash) => is_nearest_missing(
                node_models(nodes@),
                text::texts(chunks@),
                root@,
                hash@,
            ),
        },
{
    let ghost n = node_models(nodes@);
    let ghost c = text::texts(chunks@);
    let mut pending: Vec<String> = Vec::new();
    pending.push(root.to_owned());
    let mut next: usize = 0;
    let mut visited: Vec<String> = Vec::new();
    let mut found: Vec<String> = Vec::new();
    proof {
        assert(reached_in(n, c, root@, root@, 0));
        assert(text::texts(pending@)[0] == root@);
        assert(text::texts(pending@) =~= seq![root@]);
        assert(text::texts(visited@) =~= Seq::<Seq<char>>::empty());
        assert(text::texts(found@) =~= Seq::<Seq<char>>::empty());
    }
    while next < pending.len()
        invariant
            next <= pending.len(),
            n == node_models(nodes@),
            c == text::texts(chunks@),
            forall|i: int|
                0 <= i < text::texts(pending@).len() ==> reached(
                    n,
                    c,
                    root@,
                    #[trigger] text::texts(pending@)[i],
                ),
            text::texts(pending@).contains(root@),
            text::texts(pending@) == discovered(n, c, root@, next as nat),
            forall|hash: Seq<char>| #[trigger]
                text::texts(visited@).contains(hash) ==> text::texts(pending@).subrange(
                    0,
                    next as int,
                ).contains(hash),
            forall|i: int|
                0 <= i < next ==> text::texts(visited@).contains(
                    #[trigger] text::texts(pending@)[i],
                ),
            text::texts(visited@).no_duplicates(),
            forall|i: int|
                0 <= i < text::texts(visited@).len() ==> reached(
                    n,
                    c,
                    root@,
                    #[trigger] text::texts(visited@)[i],
                ) && !is_missing(n, c, text::texts(visited@)[i]),
            forall|a: Seq<char>, b: Seq<char>|
                text::texts(visited@).contains(a) && #[trigger] leads(n, c, a, b)
                    ==> text::texts(pending@).contains(b),
            text::texts(found@).no_duplicates(),
            forall|hash: Seq<char>| #[trigger]
                text::texts(found@).contains(hash) <==> c.contains(hash) && text::texts(
                    visited@,
                ).contains(hash),
        decreases n.len() + c.len() - visited@.len(), pending@.len() - next,
    {
        let ghost p = text::texts(pending@);
        let ghost v = text::texts(visited@);
        let ghost f = text::texts(found@);
        let hash = pending[next].clone();
        assert(p[next as int] == hash@);
        proof {
            let seen = p.subrange(0, next as int);
            assert(v.contains(hash@) <==> seen.contains(hash@)) by {
                if seen.contains(hash@) {
                    let i = choose|i: int| 0 <= i < seen.len() && seen[i] == hash@;
                    assert(v.contains(p[i]));
                }
            }
            let now = p.subrange(0, next + 1);
            assert(now =~= seen.push(hash@));
            assert(now[next as int] == hash@);
            assert forall|x: Seq<char>| seen.contains(x) implies now.contains(x) by {
                let i = choose|i: int| 0 <= i < seen.len() && seen[i] == x;
                assert(now[i] == x);
            }
        }
        next += 1;
        if !text::strings_contain(&visited, hash.as_str()) {
            let is_chunk = text::strings_contain(chunks, hash.as_str());
            let at: usize = find_node(nodes, hash.as_str());
            if !is_chunk && at >= nodes.len() {
                proof {
                    assert forall|i: int| 0 <= i < next - 1 implies !is_missing(
                        n,
                        c,
                        #[trigger] p[i],
                    ) by {
                        assert(v.contains(p[i]));
                        let j = choose|j: int| 0 <= j < v.len() && v[j] == p[i];
                        assert(!is_missing(n, c, v[j]));
                    }
                    let place = (next - 1) as nat;
                    let seen = discovered(n, c, root@, place);
                    assert(seen == p);
                    assert(is_missing(n, c, hash@));
                    assert(first_missing(n, c, root@, place, hash@));
                    assert(reached(n, c, root@, p[place as int]));
                    assert(is_nearest_missing(n, c, root@, hash@));
                }
                return Err(hash);
            }
            visited.push(hash.clone());
            assert(text::texts(visited@) =~= v.push(hash@));
            if is_chunk {
                found.push(hash.clone());
                assert(text::texts(found@) =~= f.push(hash@));
            } else {
                let children = &nodes[at].children;
                let ghost kids = text::texts(children@);
                assert(n[at as int].1 == kids);
                let mut k: usize = 0;
                assert(p + kids.subrange(0, 0) =~= p);
                while k < children.len()
                    invariant
                        k <= children.len(),
                        kids == text::texts(children@),
                        text::texts(pending@) == p + kids.subrange(0, k as int),
                    decreases children.len() - k,
                {
                    let ghost before = text::texts(pending@);
                    pending.push(children[k].clone());
                    assert(text::texts(pending@) =~= before.push(children@[k as int]@));
                    assert(kids.subrange(0, k + 1) =~= kids.subrange(0, k as int).push(
                        kids[k as int],
                    ));
                    k += 1;
                }
                assert(kids.subrange(0, kids.len() as int) =~= kids);
                proof {
                    let q = text::texts(pending@);
                    assert(q =~= p + kids);
                    assert forall|i: int| 0 <= i < q.len() implies reached(
                        n,
                        c,
                        root@,
                        #[trigger] q[i],
                    ) by {
                        if i < p.len() {
                            assert(q[i] == p[i]);
                        } else {
                            assert(q[i] == kids[i - p.len()]);
                            assert(kids.contains(q[i]));
                            lemma_step(n, c, root@, hash@, q[i]);
                        }
                    }
                }
            }
            proof {
                let q = text::texts(pending@);
                let w = text::texts(visited@);
                let g = text::texts(found@);
                assert forall|x: Seq<char>| p.contains(x) implies q.contains(x) by {
                    let i = choose|i: int| 0 <= i < p.len() && p[i] == x;
                    assert(q[i] == x);
                }
                assert(w[v.len() as int] == hash@);
                assert(q.subrange(0, next as int) =~= p.subrange(0, next as int));
                assert(q == discovered(n, c, root@, next as nat));
                assert forall|x: Seq<char>| #[trigger] w.contains(x) <==> (v.contains(x) || x
                    == hash@) by {
                    if v.contains(x) {
                        let i = choose|i: int| 0 <= i < v.len() && v[i] == x;
                        assert(w[i] == x);
                    }
                    if w.contains(x) {
                        let i = choose|i: int| 0 <= i < w.len() && w[i] == x;
                        if i < v.len() {
                            assert(v[i] == x);
                        }
                    }
                }
                assert forall|a: Seq<char>, b: Seq<char>|
                    w.contains(a) && #[trigger] leads(n, c, a, b) implies q.contains(b) by {
                    if a == hash@ {
                        let kids = children_of(n, hash@)->0;
                        let i = choose|i: int| 0 <= i < kids.len() && kids[i] == b;
                        assert(q[p.len() + i] == b);
                    } else {
                        assert(v.contains(a));
                        assert(p.contains(b));
                    }
                }
                assert forall|i: int| 0 <= i < next implies w.contains(#[trigger] q[i]) by {
                    assert(q[i] == p[i]);
                    if i < next - 1 {
                        assert(v.contains(p[i]));
                    }
                }
                assert(!f.contains(hash@));
                assert forall|x: Seq<char>| #[trigger] g.contains(x) <==> (c.contains(x)
                    && w.contains(x)) by {
                    if is_chunk {
                        assert(g[f.len() as int] == hash@);
                        if f.contains(x) {
                            let i = choose|i: int| 0 <= i < f.len() && f[i] == x;
                            assert(g[i] == x);
                        }
                        if g.contains(x) {
                            let i = choose|i: int| 0 <= i < g.len() && g[i] == x;
                            if i < f.len() {
                                assert(f[i] == x);
                            }
                        }
                    }
                    assert(f.contains(x) <==> (c.contains(x) && v.contains(x)));
                }
                assert forall|i: int, j: int|
                    0 <= i < g.len() && 0 <= j < g.len() && i != j implies g[i] != g[j] by {
                    if i < f.len() {
                        assert(f.contains(f[i]));
                    }
                    if j < f.len() {
                        assert(f.contains(f[j]));
                    }
                }
                lemma_known_bound(n, c, w);
            }
        } else {
            proof {
                assert forall|i: int| 0 <= i < next implies v.contains(#[trigger] p[i]) by {}
                assert(p == discovered(n, c, root@, next as nat));
            }
        }
    }
    proof {
        let p = text::texts(pending@);
        let v = text::texts(visited@);
        let f = text::texts(found@);
        assert forall|x: Seq<char>| p.contains(x) implies v.contains(x) by {
            let i = choose|i: int| 0 <= i < p.len() && p[i] == x;
            assert(v.contains(p[i]));
        }
        assert(p.contains(root@));
        assert forall|a: Seq<char>, b: Seq<char>|
            v.contains(a) && #[trigger] leads(n, c, a, b) implies v.contains(b) by {
            assert(p.contains(b));
        }
        assert forall|hash: Seq<char>| #[trigger] reached(n, c, root@, hash) implies v.contains(
            hash,
        ) && !is_missing(n, c, hash) by {
            let steps = choose|steps: nat| reached_in(n, c, root@, hash, steps);
            lemma_closed(n, c, root@, v, hash, steps);
            let i = choose|i: int| 0 <= i < v.len() && v[i] == hash;
            assert(!is_missing(n, c, v[i]));
        }
        assert forall|hash: Seq<char>| #[trigger] f.contains(hash) <==> c.contains(hash) && reached(
            n,
            c,
            root@,
            hash,
        ) by {
            if v.contains(hash) {
                let i = choose|i: int| 0 <= i < v.len() && v[i] == hash;
                assert(reached(n, c, root@, v[i]));
            }
        }
    }
    Ok(found)
}

/// What is told of a hash that is missing.
pub fn missing_node_message(hash: &str) -> (r: String)
    ensures
        r@ == "Local codebase index is missing Merkle node "@ + hash@,
{
    text::joined("Local codebase index is missing Merkle node ", hash)
}

// ---------------------------------------------------------------------------
// Fragments.

/// A part of a source file with the hash of its content.
pub struct IndexFragment<S = String> {
    pub content_hash: S,
    pub content: S,
}

pub type FragmentModel = IndexFragment<Seq<char>>;

impl View for IndexFragment<String> {
    type V = FragmentModel;

    open spec fn view(&self) -> FragmentModel {
        IndexFragment { content_hash: self.content_hash@, content: self.content@ }
    }
}

impl Clone for IndexFragment<String> {
    fn clone(&self) -> (r: Self)
        ensures
            r@ == self@,
    {
        IndexFragment { content_hash: self.content_hash.clone(), content: self.content.clone() }
    }
}

pub open spec fn fragment_models(v: Seq<IndexFragment>) -> Seq<FragmentModel> {
    Seq::new(v.len(), |i: int| v[i]@)
}

/// Whether a fragment with a hash is in a list.
pub open spec fn has_hash(fragments: Seq<FragmentModel>, hash: Seq<char>) -> bool {
    exists|i: int| 0 <= i < fragments.len() && (#[trigger] fragments[i]).content_hash == hash
}

/// The first fragment of each hash.
pub open spec fn unique(fragments: Seq<FragmentModel>) -> Seq<FragmentModel>
    decreases fragments.len(),
{
    if fragments.len() == 0 {
        Seq::empty()
    } else {
        let init = unique(fragments.drop_last());
        if has_hash(init, fragments.last().content_hash) {
            init
        } else {
            init.push(fragments.last())
        }
    }
}

fn contains_hash(fragments: &Vec<IndexFragment>, hash: &str) -> (r: bool)
    ensures
        r == has_hash(fragment_models(fragments@), hash@),
{
    let ghost all = fragment_models(fragments@);
    let mut i: usize = 0;
    while i < fragments.len()
        invariant
            i <= fragments.len(),
            all == fragment_models(fragments@),
            forall|j: int| 0 <= j < i ==> (#[trigger] all[j]).content_hash != hash@,
        decreases fragments.len() - i,
    {
        assert(all[i as int] == fragments@[i as int]@);
        if text::same_text(fragments[i].content_hash.as_str(), hash) {
            return true;
        }
        i += 1;
    }
    false
}

/// Keeps the first fragment of each hash, in order: what is sent to be embedded.
pub fn unique_fragments(fragments: &Vec<IndexFragment>) -> (r: Vec<IndexFragment>)
    ensures
        fragment_models(r@) == unique(fragment_models(fragments@)),
{
    let ghost all = fragment_models(fragments@);
    let mut out: Vec<IndexFragment> = Vec::new();
    let mut i: usize = 0;
    assert(all.subrange(0, 0) =~= Seq::<FragmentModel>::empty());
    assert(fragment_models(out@) =~= Seq::<FragmentModel>::empty());
    while i < fragments.len()
        invariant
            i <= fragments.len(),
            all == fragment_models(fragments@),
            fragment_models(out@) == unique(all.subrange(0, i as int)),
        decreases fragments.len() - i,
    {
        let ghost part = all.subrange(0, i + 1);
        assert(part.drop_last() =~= all.subrange(0, i as int));
        assert(part.last() == fragments@[i as int]@);
        if !contains_hash(&out, fragments[i].content_hash.as_str()) {
            let ghost before = fragment_models(out@);
            out.push(fragments[i].clone());
            assert(fragment_models(out@) =~= before.push(fragments@[i as int]@));
        }
        i += 1;
    }
    assert(all.subrange(0, all.len() as int) =~= all);
    out
}

/// The number of tokens of a query that a content holds.
pub open spec fn shared_count(query: Seq<Seq<char>>, content: Seq<Seq<char>>) -> nat
    decreases query.len(),
{
    if query.len() == 0 {
        0
    } else {
        shared_count(query.drop_last(), content) + (if content.contains(query.last()) {
            1nat
        } else {
            0nat
        })
    }
}

/// The score of a fragment for a query: the number of different tokens that
/// they share.
pub open spec fn lexical_score(query: Seq<char>, fragment: FragmentModel) -> nat {
    shared_count(tokens::distinct(tokens::lexemes(query)), tokens::lexemes(fragment.content))
}

pub open spec fn lexical_order(query: Seq<char>) -> spec_fn(FragmentModel, FragmentModel) -> bool {
    |a: FragmentModel, b: FragmentModel| lexical_score(query, a) >= lexical_score(query, b)
}

/// The fragments by their scores; those with the same score keep their order.
pub open spec fn reranked(query: Seq<char>, fragments: Seq<FragmentModel>) -> Seq<FragmentModel> {
    order::sorted_by(fragments, lexical_order(query))
}

fn count_shared(query: &Vec<String>, content: &Vec<String>) -> (r: usize)
    ensures
        r == shared_count(text::texts(query@), text::texts(content@)),
{
    let ghost q = text::texts(query@);
    let ghost c = text::texts(content@);
    let mut count: usize = 0;
    let mut i: usize = 0;
    assert(q.subrange(0, 0) =~= Seq::<Seq<char>>::empty());
    while i < query.len()
        invariant
            i <= query.len(),
            q == text::texts(query@),
            c == text::texts(content@),
            count == shared_count(q.subrange(0, i as int), c),
            count <= i,
        decreases query.len() - i,
    {
        let ghost part = q.subrange(0, i + 1);
        assert(part.drop_last() =~= q.subrange(0, i as int));
        assert(part.last() == query@[i as int]@);
        if text::strings_contain(content, query[i].as_str()) {
            count += 1;
        }
        i += 1;
    }
    assert(q.subrange(0, q.len() as int) =~= q);
    count
}

/// A fragment with its score.
struct ScoredFragment {
    score: usize,
    fragment: IndexFragment,
}

impl Ordered for ScoredFragment {
    closed spec fn at_most(&self, other: &Self) -> bool {
        self.score >= other.score
    }

    proof fn order_total(a: &Self, b: &Self) {
    }

    proof fn order_transitive(a: &Self, b: &Self, c: &Self) {
    }

    fn is_at_most(&self, other: &Self) -> (r: bool) {
        self.score >= other.score
    }
}

spec fn scored_view() -> spec_fn(ScoredFragment) -> FragmentModel {
    |scored: ScoredFragment| scored.fragment@
}

/// Ranks fragments by the tokens that they share with a query.
pub fn rerank_fragments(query: &str, fragments: &Vec<IndexFragment>) -> (r: Vec<IndexFragment>)
    ensures
        fragment_models(r@) == reranked(query@, fragment_models(fragments@)),
{
    let wanted = tokens::distinct_texts(&tokens::split_lexemes(query));
    let ghost given = fragment_models(fragments@);
    let mut scored: Vec<ScoredFragment> = Vec::new();
    let mut i: usize = 0;
    while i < fragments.len()
        invariant
            i <= fragments.len(),
            scored.len() == i,
            text::texts(wanted@) == tokens::distinct(tokens::lexemes(query@)),
            forall|j: int|
                0 <= j < i ==> (#[trigger] scored@[j]).fragment@ == fragments@[j]@
                    && scored@[j].score == lexical_score(query@, fragments@[j]@),
        decreases fragments.len() - i,
    {
        let held = tokens::split_lexemes(fragments[i].content.as_str());
        let score: usize = count_shared(&wanted, &held);
        scored.push(ScoredFragment { score, fragment: fragments[i].clone() });
        i += 1;
    }
    let ghost unsorted = scored@;
    proof {
        assert(unsorted.map_values(scored_view()) =~= given);
        assert forall|x: ScoredFragment, y: ScoredFragment|
            unsorted.contains(x) && unsorted.contains(y) implies #[trigger] x.at_most(&y)
            == lexical_order(query@)(scored_view()(x), scored_view()(y)) by {
            let a = choose|a: int| 0 <= a < unsorted.len() && unsorted[a] == x;
            let b = choose|b: int| 0 <= b < unsorted.len() && unsorted[b] == y;
            assert(unsorted[a].fragment@ == fragments@[a]@);
            assert(unsorted[b].fragment@ == fragments@[b]@);
        }
        order::lemma_sorted_by(unsorted, scored_view(), lexical_order(query@));
    }
    let ranked = order::sort(scored);
    let mut out: Vec<IndexFragment> = Vec::new();
    let mut k: usize = 0;
    while k < ranked.len()
        invariant
            k <= ranked.len(),
            out.len() == k,
            forall|j: int| 0 <= j < k ==> (#[trigger] out@[j])@ == ranked@[j].fragment@,
        decreases ranked.len() - k,
    {
        out.push(ranked[k].fragment.clone());
        k += 1;
    }
    assert(fragment_models(out@) =~= ranked@.map_values(scored_view()));
    out
}

/// A chunk with the rank of its similarity; a higher rank is more similar.
pub struct RankedChunk<S = String> {
    pub rank: u64,
    pub hash: S,
}

pub type ChunkModel = RankedChunk<Seq<char>>;

impl View for RankedChunk<String> {
    type V = ChunkModel;

    open spec fn view(&self) -> ChunkModel {
        RankedChunk { rank: self.rank, hash: self.hash@ }
    }
}

pub open spec fn chunk_models(v: Seq<RankedChunk>) -> Seq<ChunkModel> {
    Seq::new(v.len(), |i: int| v[i]@)
}

/// Whether a chunk may stand before another: by rank, then by hash.
pub open spec fn chunk_at_most(a: ChunkModel, b: ChunkModel) -> bool {
    if a.rank == b.rank {
        text::text_at_most(a.hash, b.hash)
    } else {
        a.rank > b.rank
    }
}

pub open spec fn chunk_order() -> spec_fn(ChunkModel, ChunkModel) -> bool {
    |a: ChunkModel, b: ChunkModel| chunk_at_most(a, b)
}

impl Ordered for RankedChunk<String> {
    open spec fn at_most(&self, other: &Self) -> bool {
        chunk_at_most(self@, other@)
    }

    proof fn order_total(a: &Self, b: &Self) {
        text::lemma_text_total(a@.hash, b@.hash);
    }

    proof fn order_transitive(a: &Self, b: &Self, c: &Self) {
        if a@.rank == b@.rank && b@.rank == c@.rank {
            text::lemma_text_transitive(a@.hash, b@.hash, c@.hash);
        }
    }

    fn is_at_most(&self, other: &Self) -> (r: bool) {
        if self.rank == other.rank {
            text::is_text_at_most(self.hash.as_str(), other.hash.as_str())
        } else {
            self.rank > other.rank
        }
    }
}

/// The hashes of the most similar chunks.
pub open spec fn most_similar(chunks: Seq<ChunkModel>) -> Seq<Seq<char>> {
    let ranked = order::sorted_by(chunks, chunk_order());
    Seq::new(
        if ranked.len() <= MAX_RELEVANT_FRAGMENTS {
            ranked.len()
        } else {
            MAX_RELEVANT_FRAGMENTS as nat
        },
        |i: int| ranked[i].hash,
    )
}

/// Chooses the most similar chunks.
pub fn relevant_hashes(chunks: Vec<RankedChunk>) -> (r: Vec<String>)
    ensures
        text::texts(r@) == most_similar(chunk_models(chunks@)),
{
    let ghost unsorted = chunks@;
    let ranked = order::sort(chunks);
    proof {
        let f = |chunk: RankedChunk| chunk@;
        order::lemma_sorted_by(unsorted, f, chunk_order());
        assert(unsorted.map_values(f) =~= chunk_models(unsorted));
        assert(ranked@.map_values(f) =~= chunk_models(ranked@));
    }
    let mut out: Vec<String> = Vec::new();
    let mut i: usize = 0;
    while i < ranked.len() && i < MAX_RELEVANT_FRAGMENTS
        invariant
            i <= ranked.len(),
            i <= MAX_RELEVANT_FRAGMENTS,
            out.len() == i,
            forall|j: int| 0 <= j < i ==> (#[trigger] out@[j])@ == ranked@[j].hash@,
        decreases ranked.len() - i,
    {
        out.push(ranked[i].hash.clone());
        i += 1;
    }
    assert(chunk_models(ranked@) == order::sorted_by(chunk_models(unsorted), chunk_order()));
    assert(text::texts(out@) =~= most_similar(chunk_models(unsorted)));
    out
}

/// The hashes that are not stored.
pub open spec fn not_stored(stored: Seq<Seq<char>>) -> spec_fn(Seq<char>) -> bool {
    |hash: Seq<char>| !stored.contains(hash)
}

/// Tells which hashes are not stored, in order.
pub fn missing_hashes(hashes: &Vec<String>, stored: &Vec<String>) -> (r: Vec<String>)
    ensures
        text::texts(r@) == text::texts(hashes@).filter(not_stored(text::texts(stored@))),
{
    let ghost all = text::texts(hashes@);
    let ghost keep = not_stored(text::texts(stored@));
    let mut out: Vec<String> = Vec::new();
    let mut i: usize = 0;
    proof {
        reveal(Seq::filter);
        assert(all.subrange(0, 0) =~= Seq::<Seq<char>>::empty());
        assert(text::texts(out@) =~= all.subrange(0, 0).filter(keep));
    }
    while i < hashes.len()
        invariant
            i <= hashes.len(),
            all == text::texts(hashes@),
            keep == not_stored(text::texts(stored@)),
            text::texts(out@) == all.subrange(0, i as int).filter(keep),
        decreases hashes.len() - i,
    {
        let ghost part = all.subrange(0, i + 1);
        assert(part.drop_last() =~= all.subrange(0, i as int));
        assert(part.last() == hashes@[i as int]@);
        proof {
            reveal(Seq::filter);
        }
        let known = text::strings_contain(stored, hashes[i].as_str());
        assert(keep(hashes@[i as int]@) == !known);
        if !known {
            let ghost before = text::texts(out@);
            out.push(hashes[i].clone());
            assert(text::texts(out@) =~= before.push(hashes@[i as int]@));
        }
        i += 1;
    }
    assert(all.subrange(0, all.len() as int) =~= all);
    out
}

// ---------------------------------------------------------------------------
// Laws.

/// A stored vector reads back as it was written, if it is one that is stored:
/// not empty, not too long, and of finite numbers.
pub proof fn law_vector_reads_back(vector: Seq<u32>)
    requires
        0 < vector.len() <= MAX_EMBEDDING_DIMENSIONS,
        forall|i: int| 0 <= i < vector.len() ==> finite_bits(#[trigger] vector[i]),
    ensures
        stored_problem(encoded(vector)) is None,
        decoded(encoded(vector)) == vector,
{
    lemma_encoded(vector);
    let bytes = encoded(vector);
    let back = decoded(bytes);
    assert(back.len() == vector.len());
    assert forall|i: int| 0 <= i < vector.len() implies back[i] == vector[i] by {
        assert(le_four(vector[i])[0] == bytes[4 * i]);
        assert(le_four(vector[i])[1] == bytes[4 * i + 1]);
        assert(le_four(vector[i])[2] == bytes[4 * i + 2]);
        assert(le_four(vector[i])[3] == bytes[4 * i + 3]);
        lemma_four(vector[i]);
    }
    assert(back =~= vector);
}

proof fn lemma_four(bits: u32)
    ensures
        from_four(le_four(bits)[0], le_four(bits)[1], le_four(bits)[2], le_four(bits)[3]) == bits,
{
}

proof fn lemma_encoded(vector: Seq<u32>)
    ensures
        encoded(vector).len() == 4 * vector.len(),
        forall|i: int, k: int|
            #![trigger le_four(vector[i])[k]]
            0 <= i < vector.len() && 0 <= k < 4 ==> le_four(vector[i])[k] == encoded(vector)[4 * i
                + k],
    decreases vector.len(),
{
    if vector.len() > 0 {
        let init = vector.drop_last();
        lemma_encoded(init);
        assert forall|i: int, k: int|
            #![trigger le_four(vector[i])[k]]
            0 <= i < vector.len() && 0 <= k < 4 implies le_four(vector[i])[k] == encoded(
            vector,
        )[4 * i + k] by {
            if i < init.len() {
                assert(vector[i] == init[i]);
                assert(le_four(init[i])[k] == encoded(init)[4 * i + k]);
            }
        }
    }
}

/// Routes with another provider, endpoint or model have other inputs to the
/// identity of their vector space.
pub proof fn law_route_change_changes_the_space_inputs(a: RouteModel, b: RouteModel)
    requires
        digest::framed(space_fields(a)) == digest::framed(space_fields(b)),
        digest::short_fields(space_fields(a)),
        digest::short_fields(space_fields(b)),
    ensures
        a.provider_name == b.provider_name,
        without_slashes(a.base_url) == without_slashes(b.base_url),
        a.model == b.model,
{
    digest::law_framing_is_injective(space_fields(a), space_fields(b));
    let x = space_fields(a);
    let y = space_fields(b);
    assert(x[0] == y[0] && x[1] == y[1] && x[2] == y[2]);
    vstd::utf8::encode_utf8_decode_utf8(a.provider_name);
    vstd::utf8::encode_utf8_decode_utf8(b.provider_name);
    vstd::utf8::encode_utf8_decode_utf8(without_slashes(a.base_url));
    vstd::utf8::encode_utf8_decode_utf8(without_slashes(b.base_url));
    vstd::utf8::encode_utf8_decode_utf8(a.model);
    vstd::utf8::encode_utf8_decode_utf8(b.model);
}

/// The key of a route has no part in the identity of its vector space.
pub proof fn law_key_does_not_change_the_space(route: RouteModel, key: Option<Seq<char>>)
    ensures
        space_of(EmbeddingRoute { api_key: key, ..route }) == space_of(route),
{
}

/// Taking the same route again changes nothing.
pub proof fn law_same_route_is_no_change(route: Result<Option<RouteModel>, Seq<char>>)
    ensures
        !state_changed(next_state(route), next_state(route)),
{
}

/// A response that passes has one valid vector of the same size for each input.
pub proof fn law_valid_response_is_uniform(
    data: Seq<EmbeddingShape>,
    expected: int,
    i: int,
    j: int,
)
    requires
        response_problem(data, expected) is None,
        0 <= i < data.len(),
        0 <= j < data.len(),
    ensures
        data[i].dimensions == data[j].dimensions,
        0 < data[i].dimensions <= MAX_EMBEDDING_DIMENSIONS,
        data[i].finite,
        data[i].index < expected,
        i != j ==> data[i].index != data[j].index,
{
    lemma_uniform(data, data.len() as int, expected, i);
    lemma_uniform(data, data.len() as int, expected, j);
}

proof fn lemma_uniform(data: Seq<EmbeddingShape>, n: int, expected: int, i: int)
    requires
        first_problem(data, n, expected) is None,
        0 <= i < n <= data.len(),
    ensures
        embedding_problem(data, i, expected) is None,
        data[i].dimensions == data[0].dimensions,
    decreases n, i,
{
    if i < n - 1 {
        lemma_uniform(data, n - 1, expected, i);
    } else if i > 0 {
        lemma_uniform(data, n - 1, expected, i - 1);
    }
}

/// The different fragments that are embedded cover every fragment.
pub proof fn law_every_fragment_is_embedded(fragments: Seq<FragmentModel>, i: int)
    requires
        0 <= i < fragments.len(),
    ensures
        has_hash(unique(fragments), fragments[i].content_hash),
    decreases fragments.len(),
{
    let init = fragments.drop_last();
    let kept = unique(init);
    let out = unique(fragments);
    if i < init.len() {
        law_every_fragment_is_embedded(init, i);
        let k = choose|k: int|
            0 <= k < kept.len() && (#[trigger] kept[k]).content_hash == init[i].content_hash;
        assert(out[k] == kept[k]);
    } else if !has_hash(kept, fragments[i].content_hash) {
        assert(out[out.len() - 1] == fragments[i]);
    }
}

/// The index is ready exactly with a route that makes embeddings, and then with
/// that route.
pub proof fn law_routes_that_are_ready(route: Result<Option<RouteModel>, Seq<char>>)
    ensures
        next_state(route) is Ready <==> route is Ok && route->Ok_0 is Some
            && route->Ok_0->0.embeddings,
        next_state(route) is Ready ==> next_state(route)->Ready_0 == route->Ok_0->0,
        route is Err ==> next_state(route)->Disabled_0 == route->Err_0,
{
}

/// A change is one of the reason, of the route in use, or of whether there is
/// one.
pub proof fn law_changes_of_the_route(a: StateModel, b: StateModel)
    ensures
        (a is Ready) != (b is Ready) ==> state_changed(a, b),
        a is Disabled && b is Disabled ==> (state_changed(a, b) <==> a->Disabled_0
            != b->Disabled_0),
        a is Ready && b is Ready && a->Ready_0.provider_name == b->Ready_0.provider_name
            && a->Ready_0.base_url == b->Ready_0.base_url && a->Ready_0.model == b->Ready_0.model
            && a->Ready_0.api_key == b->Ready_0.api_key ==> !state_changed(a, b),
        a is Ready && b is Ready && operational_of(a->Ready_0) != operational_of(b->Ready_0)
            ==> state_changed(a, b),
        state_changed(a, b) == state_changed(b, a),
{
}

/// Routes with another vector space or another key have other inputs to their
/// identity in use.
pub proof fn law_key_change_changes_the_inputs(
    route: RouteModel,
    a: Seq<char>,
    b: Seq<char>,
)
    requires
        digest::short_fields(seq![bytes_of(a)]),
        digest::short_fields(seq![bytes_of(b)]),
        digest::framed(seq![bytes_of(a)]) == digest::framed(seq![bytes_of(b)]),
    ensures
        a == b,
        operational_of(EmbeddingRoute { api_key: Some(a), ..route }) == digest::digest_of(
            digest::framed(
                seq![
                    vstd::utf8::encode_utf8(space_of(route)),
                    vstd::utf8::encode_utf8(
                        digest::digest_of(digest::framed(seq![vstd::utf8::encode_utf8(a)])),
                    ),
                ],
            ),
        ),
        operational_of(EmbeddingRoute { api_key: None, ..route }) == digest::digest_of(
            digest::framed(
                seq![
                    vstd::utf8::encode_utf8(space_of(route)),
                    vstd::utf8::encode_utf8(Seq::<char>::empty()),
                ],
            ),
        ),
{
    digest::law_framing_is_injective(seq![bytes_of(a)], seq![bytes_of(b)]);
    assert(seq![bytes_of(a)][0] == seq![bytes_of(b)][0]);
    vstd::utf8::encode_utf8_decode_utf8(a);
    vstd::utf8::encode_utf8_decode_utf8(b);
}

/// Only slashes are taken from the end of an address, and all of them.
pub proof fn law_slashes_at_the_end_are_taken(s: Seq<char>)
    ensures
        without_slashes(s).len() <= s.len(),
        s.subrange(0, without_slashes(s).len() as int) == without_slashes(s),
        without_slashes(s).len() > 0 ==> without_slashes(s).last() != '/',
        forall|i: int| without_slashes(s).len() <= i < s.len() ==> #[trigger] s[i] == '/',
    decreases s.len(),
{
    if s.len() > 0 && s.last() == '/' {
        law_slashes_at_the_end_are_taken(s.drop_last());
        let kept = without_slashes(s);
        assert(s.subrange(0, kept.len() as int) =~= s.drop_last().subrange(0, kept.len() as int));
        assert forall|i: int| kept.len() <= i < s.len() implies #[trigger] s[i] == '/' by {
            if i < s.len() - 1 {
                assert(s.drop_last()[i] == '/');
            }
        }
    } else {
        assert(s.subrange(0, s.len() as int) =~= s);
    }
}

/// A response passes where it has one vector for each input, each of 1 to 16384
/// finite numbers, and all of one size.
pub proof fn law_sound_responses_pass(data: Seq<EmbeddingShape>, expected: int)
    requires
        data.len() == expected,
        forall|i: int|
            0 <= i < data.len() ==> (#[trigger] data[i]).index < expected && 1
                <= data[i].dimensions <= 16_384 && data[i].finite && data[i].dimensions
                == data[0].dimensions,
        forall|i: int, j: int|
            #![trigger data[i], data[j]]
            0 <= i < j < data.len() ==> data[i].index != data[j].index,
    ensures
        response_problem(data, expected) is None,
{
    lemma_no_problem(data, data.len() as int, expected);
}

proof fn lemma_no_problem(data: Seq<EmbeddingShape>, n: int, expected: int)
    requires
        0 <= n <= data.len(),
        forall|i: int|
            0 <= i < data.len() ==> (#[trigger] data[i]).index < expected && 1
                <= data[i].dimensions <= 16_384 && data[i].finite && data[i].dimensions
                == data[0].dimensions,
        forall|i: int, j: int|
            #![trigger data[i], data[j]]
            0 <= i < j < data.len() ==> data[i].index != data[j].index,
    ensures
        first_problem(data, n, expected) is None,
    decreases n,
{
    if n > 0 {
        lemma_no_problem(data, n - 1, expected);
        if n > 1 {
            assert(data[n - 2].dimensions == data[0].dimensions);
        }
        assert(data[n - 1].dimensions == data[0].dimensions);
    }
}

/// A response with another number of vectors never passes.
pub proof fn law_every_input_has_a_vector(data: Seq<EmbeddingShape>, expected: int)
    requires
        response_problem(data, expected) is None,
    ensures
        data.len() == expected,
        forall|i: int| 0 <= i < data.len() ==> 1 <= (#[trigger] data[i]).dimensions <= 16_384,
{
    assert forall|i: int| 0 <= i < data.len() implies 1 <= (#[trigger] data[i]).dimensions
        <= 16_384 by {
        law_valid_response_is_uniform(data, expected, i, i);
    }
}

/// A number is written as four bytes, the lowest first.
pub proof fn law_lowest_bytes_come_first(vector: Seq<u32>, i: int)
    requires
        0 <= i < vector.len(),
    ensures
        encoded(vector).len() == 4 * vector.len(),
        encoded(vector)[4 * i] == vector[i] % 256,
        encoded(vector)[4 * i + 1] == vector[i] / 256 % 256,
        encoded(vector)[4 * i + 2] == vector[i] / 65_536 % 256,
        encoded(vector)[4 * i + 3] == vector[i] / 16_777_216,
    decreases vector.len(),
{
    let init = vector.drop_last();
    lemma_encoded_len(vector);
    lemma_encoded_len(init);
    if i < init.len() {
        law_lowest_bytes_come_first(init, i);
        assert(init[i] == vector[i]);
        assert(encoded(vector)[4 * i] == encoded(init)[4 * i]);
        assert(encoded(vector)[4 * i + 1] == encoded(init)[4 * i + 1]);
        assert(encoded(vector)[4 * i + 2] == encoded(init)[4 * i + 2]);
        assert(encoded(vector)[4 * i + 3] == encoded(init)[4 * i + 3]);
    } else {
        let four = le_four(vector.last());
        assert(encoded(vector)[4 * i] == four[0]);
        assert(encoded(vector)[4 * i + 1] == four[1]);
        assert(encoded(vector)[4 * i + 2] == four[2]);
        assert(encoded(vector)[4 * i + 3] == four[3]);
    }
}

proof fn lemma_encoded_len(vector: Seq<u32>)
    ensures
        encoded(vector).len() == 4 * vector.len(),
    decreases vector.len(),
{
    if vector.len() > 0 {
        lemma_encoded_len(vector.drop_last());
    }
}

/// A stored vector is sound exactly where it has whole numbers of four bytes, 1
/// to 16384 of them, and all of them finite.
pub proof fn law_sound_stored_vectors(bytes: Seq<u8>)
    ensures
        stored_problem(bytes) is None <==> bytes.len() > 0 && bytes.len() % 4 == 0 && bytes.len()
            / 4 <= 16_384 && forall|i: int|
            0 <= i < decoded(bytes).len() ==> #[trigger] decoded(bytes)[i] & 0x7f80_0000
                != 0x7f80_0000,
        decoded(bytes).len() == bytes.len() / 4,
{
    if stored_problem(bytes) is None {
        assert forall|i: int| 0 <= i < decoded(bytes).len() implies #[trigger] decoded(bytes)[i]
            & 0x7f80_0000 != 0x7f80_0000 by {
            assert(finite_bits(decoded(bytes)[i]));
        }
    }
}

/// What is reached is the root and whatever a reached node, that is no chunk,
/// has as a child.
pub proof fn law_reached_hashes(
    nodes: Seq<(Seq<char>, Seq<Seq<char>>)>,
    chunks: Seq<Seq<char>>,
    root: Seq<char>,
    k: int,
    child: Seq<char>,
)
    ensures
        reached(nodes, chunks, root, root),
        0 <= k < nodes.len() && (forall|j: int|
            0 <= j < k ==> (#[trigger] nodes[j]).0 != nodes[k].0) && reached(
            nodes,
            chunks,
            root,
            nodes[k].0,
        ) && !chunks.contains(nodes[k].0) && nodes[k].1.contains(child) ==> reached(
            nodes,
            chunks,
            root,
            child,
        ),
{
    assert(reached_in(nodes, chunks, root, root, 0));
    if 0 <= k < nodes.len() && (forall|j: int|
        0 <= j < k ==> (#[trigger] nodes[j]).0 != nodes[k].0) && reached(
        nodes,
        chunks,
        root,
        nodes[k].0,
    ) && !chunks.contains(nodes[k].0) && nodes[k].1.contains(child) {
        lemma_first_node(nodes, nodes[k].0, k, 0);
        assert(leads(nodes, chunks, nodes[k].0, child));
        let steps = choose|steps: nat| reached_in(nodes, chunks, root, nodes[k].0, steps);
        assert(reached_in(nodes, chunks, root, child, steps + 1));
    }
}

proof fn lemma_first_node(
    nodes: Seq<(Seq<char>, Seq<Seq<char>>)>,
    hash: Seq<char>,
    k: int,
    from: int,
)
    requires
        0 <= from <= k < nodes.len(),
        nodes[k].0 == hash,
        forall|j: int| 0 <= j < k ==> (#[trigger] nodes[j]).0 != hash,
    ensures
        node_at(nodes, hash, from) == k,
    decreases k - from,
{
    if from < k {
        assert(nodes[from].0 != hash);
        lemma_first_node(nodes, hash, k, from + 1);
    }
}

/// Nothing else is reached: a chunk has no children, and a child belongs to a
/// node that is reached.
pub proof fn law_reached_by_way_of_a_node(
    nodes: Seq<(Seq<char>, Seq<Seq<char>>)>,
    chunks: Seq<Seq<char>>,
    root: Seq<char>,
    hash: Seq<char>,
)
    requires
        reached(nodes, chunks, root, hash),
        hash != root,
    ensures
        exists|k: int|
            0 <= k < nodes.len() && reached(nodes, chunks, root, (#[trigger] nodes[k]).0)
                && !chunks.contains(nodes[k].0) && nodes[k].1.contains(hash),
{
    let steps = choose|steps: nat| reached_in(nodes, chunks, root, hash, steps);
    let via = choose|via: Seq<char>|
        reached_in(nodes, chunks, root, via, (steps - 1) as nat) && #[trigger] leads(
            nodes,
            chunks,
            via,
            hash,
        );
    let k = node_at(nodes, via, 0);
    lemma_node_found(nodes, via, 0);
    assert(nodes[k].0 == via);
    assert(reached(nodes, chunks, root, nodes[k].0));
}

proof fn lemma_node_found(nodes: Seq<(Seq<char>, Seq<Seq<char>>)>, hash: Seq<char>, from: int)
    requires
        0 <= from <= nodes.len(),
    ensures
        from <= node_at(nodes, hash, from) <= nodes.len(),
        node_at(nodes, hash, from) < nodes.len() ==> nodes[node_at(nodes, hash, from)].0 == hash,
        forall|j: int|
            from <= j < node_at(nodes, hash, from) ==> (#[trigger] nodes[j]).0 != hash,
    decreases nodes.len() - from,
{
    if from < nodes.len() && nodes[from].0 != hash {
        lemma_node_found(nodes, hash, from + 1);
    }
}

/// A hash is missing exactly where it is neither a chunk nor the hash of a node.
pub proof fn law_missing_hashes(
    nodes: Seq<(Seq<char>, Seq<Seq<char>>)>,
    chunks: Seq<Seq<char>>,
    hash: Seq<char>,
)
    ensures
        is_missing(nodes, chunks, hash) <==> !chunks.contains(hash) && forall|k: int|
            0 <= k < nodes.len() ==> (#[trigger] nodes[k]).0 != hash,
{
    lemma_node_found(nodes, hash, 0);
    let at = node_at(nodes, hash, 0);
    if at < nodes.len() {
        assert(nodes[at].0 == hash);
    }
}

/// No hash is embedded twice, and of the fragments with one hash it is the first
/// that is embedded.
pub proof fn law_first_fragment_of_each_hash(fragments: Seq<FragmentModel>, k: int)
    ensures
        forall|i: int, j: int|
            #![trigger unique(fragments)[i], unique(fragments)[j]]
            0 <= i < j < unique(fragments).len() ==> unique(fragments)[i].content_hash != unique(
                fragments,
            )[j].content_hash,
        0 <= k < fragments.len() && (forall|j: int|
            0 <= j < k ==> (#[trigger] fragments[j]).content_hash != fragments[k].content_hash)
            ==> unique(fragments).contains(fragments[k]),
        forall|i: int|
            0 <= i < unique(fragments).len() ==> fragments.contains(
                #[trigger] unique(fragments)[i],
            ),
    decreases fragments.len(),
{
    if fragments.len() > 0 {
        let head = fragments.drop_last();
        let init = unique(head);
        let out = unique(fragments);
        law_first_fragment_of_each_hash(head, k);
        assert forall|i: int, j: int|
            #![trigger out[i], out[j]]
            0 <= i < j < out.len() implies out[i].content_hash != out[j].content_hash by {
            assert(out[i] == init[i]);
            if j < init.len() {
                assert(out[j] == init[j]);
            }
        }
        assert forall|i: int| 0 <= i < out.len() implies fragments.contains(
            #[trigger] out[i],
        ) by {
            if i < init.len() {
                assert(out[i] == init[i]);
                let n = choose|n: int| 0 <= n < head.len() && head[n] == init[i];
                assert(fragments[n] == out[i]);
            } else {
                assert(fragments[fragments.len() - 1] == out[i]);
            }
        }
        if 0 <= k < fragments.len() && (forall|j: int|
            0 <= j < k ==> (#[trigger] fragments[j]).content_hash != fragments[k].content_hash) {
            if k < head.len() {
                assert forall|j: int| 0 <= j < k implies (#[trigger] head[j]).content_hash
                    != head[k].content_hash by {
                    assert(fragments[j].content_hash != fragments[k].content_hash);
                }
                assert(init.contains(head[k]));
                let n = choose|n: int| 0 <= n < init.len() && init[n] == head[k];
                assert(out[n] == fragments[k]);
            } else {
                if has_hash(init, fragments[k].content_hash) {
                    let i = choose|i: int|
                        0 <= i < init.len() && (#[trigger] init[i]).content_hash
                            == fragments[k].content_hash;
                    assert(head.contains(init[i]));
                    let n = choose|n: int| 0 <= n < head.len() && head[n] == init[i];
                    assert(fragments[n].content_hash == fragments[k].content_hash);
                }
                assert(out[init.len() as int] == fragments[k]);
            }
        }
    }
}

/// Each different token of a query counts once, where the content has it.
pub proof fn law_shared_tokens_count(
    query: Seq<Seq<char>>,
    token: Seq<char>,
    content: Seq<Seq<char>>,
)
    ensures
        shared_count(Seq::empty(), content) == 0,
        content.contains(token) ==> shared_count(query.push(token), content) == shared_count(
            query,
            content,
        ) + 1,
        !content.contains(token) ==> shared_count(query.push(token), content) == shared_count(
            query,
            content,
        ),
        shared_count(query, content) <= query.len(),
        shared_count(query, content) == 0 <==> forall|i: int|
            0 <= i < query.len() ==> !content.contains(#[trigger] query[i]),
    decreases query.len(),
{
    assert(query.push(token).drop_last() =~= query);
    if query.len() > 0 {
        let init = query.drop_last();
        law_shared_tokens_count(init, token, content);
        if shared_count(query, content) == 0 {
            assert forall|i: int| 0 <= i < query.len() implies !content.contains(
                #[trigger] query[i],
            ) by {
                if i < init.len() {
                    assert(query[i] == init[i]);
                }
            }
        }
        if forall|i: int| 0 <= i < query.len() ==> !content.contains(#[trigger] query[i]) {
            assert forall|i: int| 0 <= i < init.len() implies !content.contains(
                #[trigger] init[i],
            ) by {
                assert(init[i] == query[i]);
            }
            assert(!content.contains(query[query.len() - 1]));
        }
    }
}

/// Ranking fragments keeps them all, puts those first that share more tokens
/// with the query, and leaves those that share as many in their order.
pub proof fn law_fragments_by_shared_tokens(
    query: Seq<char>,
    fragments: Seq<FragmentModel>,
    i: int,
    j: int,
    score: nat,
)
    ensures
        reranked(query, fragments).to_multiset() == fragments.to_multiset(),
        reranked(query, fragments).len() == fragments.len(),
        0 <= i < j < fragments.len() ==> lexical_score(query, reranked(query, fragments)[i])
            >= lexical_score(query, reranked(query, fragments)[j]),
        reranked(query, fragments).filter(
            |f: FragmentModel| lexical_score(query, f) == score,
        ) == fragments.filter(|f: FragmentModel| lexical_score(query, f) == score),
        forall|f: FragmentModel|
            #[trigger] lexical_score(query, f) == shared_count(
                tokens::distinct(tokens::lexemes(query)),
                tokens::lexemes(f.content),
            ),
{
    order::lemma_sorted_by_permutes(fragments, lexical_order(query));
    order::lemma_sorted_by_in_order(fragments, lexical_order(query));
    order::law_sorting_is_stable(
        fragments,
        lexical_order(query),
        |f: FragmentModel| lexical_score(query, f) == score,
    );
    if 0 <= i < j < fragments.len() {
        let out = reranked(query, fragments);
        assert(lexical_order(query)(out[i], out[j]));
    }
}

/// At most 64 chunks are found; each chunk is among them unless 64 others are at
/// least as similar, and they stand in the order of their similarity.
pub proof fn law_most_similar_chunks(chunks: Seq<ChunkModel>, i: int)
    requires
        0 <= i < chunks.len(),
    ensures
        most_similar(chunks).len() == (if chunks.len() <= 64 {
            chunks.len()
        } else {
            64
        }),
        most_similar(chunks).contains(chunks[i].hash) || forall|j: int|
            0 <= j < 64 ==> exists|k: int|
                0 <= k < chunks.len() && (#[trigger] chunks[k]).hash == #[trigger] most_similar(
                    chunks,
                )[j] && chunks[k].rank >= chunks[i].rank,
        forall|a: int, b: int|
            #![trigger most_similar(chunks)[a], most_similar(chunks)[b]]
            0 <= a < b < most_similar(chunks).len() ==> exists|x: int, y: int|
                #![trigger chunks[x], chunks[y]]
                0 <= x < chunks.len() && 0 <= y < chunks.len() && chunks[x].hash == most_similar(
                    chunks,
                )[a] && chunks[y].hash == most_similar(chunks)[b] && chunks[x].rank
                    >= chunks[y].rank,
{
    broadcast use vstd::seq_lib::group_to_multiset_ensures;

    let ranked = order::sorted_by(chunks, chunk_order());
    let found = most_similar(chunks);
    order::lemma_sorted_by_permutes(chunks, chunk_order());
    lemma_chunk_preorder();
    order::lemma_sorted_by_in_order(chunks, chunk_order());
    let x = chunks[i];
    assert(chunks.contains(x));
    assert(chunks.to_multiset().count(x) > 0);
    assert(ranked.to_multiset().count(x) > 0);
    assert(ranked.contains(x));
    let at = choose|at: int| 0 <= at < ranked.len() && ranked[at] == x;
    assert forall|j: int| 0 <= j < ranked.len() implies chunks.contains(#[trigger] ranked[j]) by {
        assert(ranked.contains(ranked[j]));
        assert(ranked.to_multiset().count(ranked[j]) > 0);
        assert(chunks.to_multiset().count(ranked[j]) > 0);
    }
    if at < 64 {
        assert(found[at] == x.hash);
    } else {
        assert forall|j: int| 0 <= j < 64 implies exists|k: int|
            0 <= k < chunks.len() && (#[trigger] chunks[k]).hash == #[trigger] found[j]
                && chunks[k].rank >= x.rank by {
            assert(chunk_order()(ranked[j], ranked[at]));
            assert(chunks.contains(ranked[j]));
            let k = choose|k: int| 0 <= k < chunks.len() && chunks[k] == ranked[j];
            assert(chunks[k].hash == found[j]);
        }
    }
    assert forall|a: int, b: int|
        #![trigger found[a], found[b]]
        0 <= a < b < found.len() implies exists|x: int, y: int|
        #![trigger chunks[x], chunks[y]]
        0 <= x < chunks.len() && 0 <= y < chunks.len() && chunks[x].hash == found[a]
            && chunks[y].hash == found[b] && chunks[x].rank >= chunks[y].rank by {
        assert(chunk_order()(ranked[a], ranked[b]));
        assert(chunks.contains(ranked[a]));
        assert(chunks.contains(ranked[b]));
        let p = choose|p: int| 0 <= p < chunks.len() && chunks[p] == ranked[a];
        let q = choose|q: int| 0 <= q < chunks.len() && chunks[q] == ranked[b];
        assert(chunks[p].hash == found[a] && chunks[q].hash == found[b]);
    }
}

proof fn lemma_chunk_preorder()
    ensures
        order::is_preorder(chunk_order()),
{
    let r = chunk_order();
    assert forall|a: ChunkModel, b: ChunkModel| #[trigger] r(a, b) || r(b, a) by {
        text::lemma_text_total(a.hash, b.hash);
    }
    assert forall|a: ChunkModel, b: ChunkModel, c: ChunkModel|
        #![trigger r(a, b), r(b, c)]
        r(a, b) && r(b, c) implies r(a, c) by {
        if a.rank == b.rank && b.rank == c.rank {
            text::lemma_text_transitive(a.hash, b.hash, c.hash);
        }
    }
}

/// Of chunks that are equally similar the one with the lesser hash comes first.
pub proof fn law_equally_similar_chunks(a: ChunkModel, b: ChunkModel)
    ensures
        a.rank > b.rank ==> chunk_at_most(a, b) && !chunk_at_most(b, a),
        a.rank == b.rank ==> (chunk_at_most(a, b) <==> text::text_at_most(a.hash, b.hash)),
{
}

/// What is missing is exactly what is not stored, in its order.
pub proof fn law_hashes_that_are_not_stored(
    hashes: Seq<Seq<char>>,
    stored: Seq<Seq<char>>,
    hash: Seq<char>,
)
    ensures
        hashes.filter(not_stored(stored)).contains(hash) <==> hashes.contains(hash)
            && !stored.contains(hash),
        hashes.push(hash).filter(not_stored(stored)) == (if stored.contains(hash) {
            hashes.filter(not_stored(stored))
        } else {
            hashes.filter(not_stored(stored)).push(hash)
        }),
{
    let keep = not_stored(stored);
    let out = hashes.filter(keep);
    if hashes.contains(hash) && !stored.contains(hash) {
        let i = choose|i: int| 0 <= i < hashes.len() && hashes[i] == hash;
        hashes.lemma_filter_contains(keep, i);
    }
    if out.contains(hash) {
        let i = choose|i: int| 0 <= i < out.len() && out[i] == hash;
        order::lemma_filtered(hashes, keep, i);
    }
    reveal(Seq::filter);
    assert(hashes.push(hash).drop_last() =~= hashes);
}

/// A stored node is read with its hash and its children.
pub proof fn law_stored_nodes(
    hash: Seq<char>,
    children: Result<Seq<Seq<char>>, Seq<char>>,
)
    ensures
        node_outcome(hash, children) is Ok <==> children is Ok,
        children is Ok ==> node_outcome(hash, children)->Ok_0.0 == hash && node_outcome(
            hash,
            children,
        )->Ok_0.1 == children->Ok_0,
{
}

/// The chunks of a root are those that are reached from it, each once.
pub proof fn law_chunks_of_a_root(
    nodes: Seq<(Seq<char>, Seq<Seq<char>>)>,
    chunks: Seq<Seq<char>>,
    root: Seq<char>,
    found: Seq<Seq<char>>,
    hash: Seq<char>,
)
    requires
        is_reachable_set(nodes, chunks, root, found),
    ensures
        chunks.contains(hash) && reached(nodes, chunks, root, hash) <==> found.contains(hash),
        forall|i: int, j: int|
            #![trigger found[i], found[j]]
            0 <= i < j < found.len() ==> found[i] != found[j],
{
}

/// A hash that is told to be missing is reached, and is neither a chunk nor a
/// node.
pub proof fn law_missing_hash_is_on_the_way(
    nodes: Seq<(Seq<char>, Seq<Seq<char>>)>,
    chunks: Seq<Seq<char>>,
    root: Seq<char>,
    hash: Seq<char>,
)
    requires
        is_nearest_missing(nodes, chunks, root, hash),
    ensures
        reached(nodes, chunks, root, hash),
        !chunks.contains(hash),
        forall|k: int| 0 <= k < nodes.len() ==> (#[trigger] nodes[k]).0 != hash,
{
    let at = choose|at: nat| first_missing(nodes, chunks, root, at, hash);
    law_missing_hashes(nodes, chunks, hash);
}

} // verus!
