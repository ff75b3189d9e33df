//! Telling changed notes from unchanged ones: a cache from note titles to the digest of the body
//! that was last processed, kept as one JSON object.
use sha2::{Digest, Sha256};
use std::collections::BTreeMap;
use std::collections::HashMap;
use vstd::prelude::*;
use vstd::string::StringExecFns;
use crate::fields::{FieldMap, distinct_keys, map_of, pair_views};
use crate::metadata::lookup;

verus! {

/// The error of `serde_json`, of which nothing is known.
#[verifier::external_type_specification]
#[verifier::external_body]
pub struct ExJsonError(serde_json::Error);

/// The SHA-256 digest of the UTF-8 encoding of `content`, written as
/// lower-case hexadecimal digits.
pub uninterp spec fn content_digest(content: Seq<char>) -> Seq<char>;

/// The object of text members that the JSON document `text` holds, if it is
/// such a document.
pub uninterp spec fn json_object(text: Seq<char>) -> Option<Map<Seq<char>, Seq<char>>>;

/// The JSON document, laid out over several lines, that holds the members of
/// `object` in the order of their keys.
pub uninterp spec fn json_text(object: Map<Seq<char>, Seq<char>>) -> Seq<char>;

/// Hashes the bytes of `content` with `sha2::Sha256` and formats the digest
/// in lower-case hexadecimal. The digest depends on the content alone.
#[verifier::external_body]
fn sha256_hex(content: &str) -> (digest: String)
    ensures
        digest@ == content_digest(content@),
{
    let mut hasher = Sha256::new();
    hasher.update(content.as_bytes());
    format!("{:x}", hasher.finalize())
}

/// Reads `text` with `serde_json::from_str` as a map from strings to
/// strings and hands its entries out. The entries have distinct keys and
/// describe the object that the document holds; a text that is no such
/// document gives the error of `serde_json`.
#[verifier::external_body]
fn parse_json_object(text: &str) -> (r: Result<Vec<(String, String)>, serde_json::Error>)
    ensures
        match r {
            Ok(pairs) => distinct_keys(pair_views(pairs@)) && json_object(text@) == Some(
                map_of(pair_views(pairs@)),
            ),
            Err(_) => json_object(text@) is None,
        },
{
    let map: HashMap<String, String> = serde_json::from_str(text)?;
    Ok(map.into_iter().collect())
}

/// Writes the pairs, as a map ordered by key, with
/// `serde_json::to_string_pretty`. Of two pairs with one key the later one
/// counts. That function fails only on a map whose keys are no strings, on
/// a value whose `Serialize` fails, or where its writer fails: here keys and
/// values are `&str` and it writes to memory, so a text always comes back.
#[verifier::external_body]
fn write_json_object(pairs: &Vec<(String, String)>) -> (r: Result<String, serde_json::Error>)
    ensures
        r is Ok,
        r->Ok_0@ == json_text(map_of(pair_views(pairs@))),
{
    let map: BTreeMap<&str, &str> = pairs.iter().map(|p| (p.0.as_str(), p.1.as_str())).collect();
    serde_json::to_string_pretty(&map)
}

/// The digest of a note body, by which bodies are told apart.
pub fn calculate_content_hash(content: &str) -> (digest: String)
    ensures
        digest@ == content_digest(content@),
{
    sha256_hex(content)
}

/// For each note that was processed, the digest of its body as of the last
/// time that body set the observers to work. A title without an entry was
/// never processed.
pub struct HashCache {
    digests: FieldMap,
}

impl View for HashCache {
    type V = Map<Seq<char>, Seq<char>>;

    closed spec fn view(&self) -> Map<Seq<char>, Seq<char>> {
        self.digests@
    }
}

/// What the check says of a note whose body has the digest `digest`: whether
/// it must be processed, and the cache afterwards. A body whose digest the
/// cache holds for the title is unchanged and leaves the cache untouched;
/// any other is changed and its digest is recorded.
pub open spec fn digest_check(cache: Map<Seq<char>, Seq<char>>, title: Seq<char>, digest: Seq<char>) -> (
    bool,
    Map<Seq<char>, Seq<char>>,
) {
    if lookup(cache, title) == Some(digest) {
        (false, cache)
    } else {
        (true, cache.insert(title, digest))
    }
}

impl HashCache {
    /// The cache without entries.
    pub fn new() -> (r: Self)
        ensures
            r@ == Map::<Seq<char>, Seq<char>>::empty(),
    {
        HashCache { digests: FieldMap::new() }
    }

    /// The cache that the JSON document `text` holds. A text that is no JSON
    /// object of text members gives the empty cache.
    pub fn from_json(text: &str) -> (r: Self)
        ensures
            r@ == match json_object(text@) {
                Some(object) => object,
                None => Map::empty(),
            },
    {
        match parse_json_object(text) {
            Ok(pairs) => HashCache { digests: FieldMap::from_pairs(&pairs) },
            Err(_) => HashCache::new(),
        }
    }

    /// The cache as a JSON document; every cache can be written as one.
    pub fn to_json(&self) -> (r: Option<String>)
        ensures
            r is Some,
            r->Some_0@ == json_text(self@),
    {
        let pairs = self.digests.to_pairs();
        match write_json_object(&pairs) {
            Ok(text) => Some(text),
            Err(_) => None,
        }
    }

    /// The digest recorded for `title`, if any.
    pub fn get(&self, title: &str) -> (r: Option<&String>)
        ensures
            match r {
                Some(d) => lookup(self@, title@) == Some(d@),
                None => lookup(self@, title@) is None,
            },
    {
        self.digests.get(title)
    }

    /// The check of a body with the given digest: reports whether the note
    /// must be processed and, if so, records the digest.
    pub fn check_digest(&mut self, title: &str, digest: String) -> (changed: bool)
        ensures
            (changed, final(self)@) == digest_check(old(self)@, title@, digest@),
    {
        let unchanged = match self.digests.get(title) {
            Some(known) => *known == digest,
            None => false,
        };
        if unchanged {
            false
        } else {
            self.digests.insert(String::from_str(title), digest);
            true
        }
    }

    /// The check of the note `title` with the body `content`: compares the
    /// digest of the body with the one recorded for the title. Where they
    /// are equal the note is unchanged and the cache stays as it is; else
    /// the new digest is recorded and the note is to be processed.
    pub fn should_process_note(&mut self, title: &str, content: &str) -> (changed: bool)
        ensures
            (changed, final(self)@) == digest_check(old(self)@, title@, content_digest(content@)),
    {
        let digest = calculate_content_hash(content);
        self.check_digest(title, digest)
    }
}

/// A body that was let through once is held back the next time, and the
/// cache is then not written: the second check of an unchanged body reports
/// "unchanged" and leaves the cache as the first check left it.
pub proof fn lemma_unchanged_body_is_skipped(
    cache: Map<Seq<char>, Seq<char>>,
    title: Seq<char>,
    digest: Seq<char>,
)
    ensures
        digest_check(digest_check(cache, title, digest).1, title, digest) == (false, digest_check(cache, title, digest).1),
{
}

/// A body whose digest differs from the recorded one is reported as
/// changed, and the cache then holds the new digest for the title.
pub proof fn lemma_changed_body_is_processed(
    cache: Map<Seq<char>, Seq<char>>,
    title: Seq<char>,
    old_body: Seq<char>,
    new_body: Seq<char>,
)
    requires
        lookup(cache, title) == Some(content_digest(old_body)),
        content_digest(new_body) != content_digest(old_body),
    ensures
        digest_check(cache, title, content_digest(new_body)).0,
        lookup(digest_check(cache, title, content_digest(new_body)).1, title) == Some(
            content_digest(new_body),
        ),
{
}

/// The check of one note never touches the entry of another note.
pub proof fn lemma_check_keeps_other_notes(
    cache: Map<Seq<char>, Seq<char>>,
    title: Seq<char>,
    digest: Seq<char>,
    other: Seq<char>,
)
    requires
        other != title,
    ensures
        lookup(digest_check(cache, title, digest).1, other) == lookup(cache, other),
{
}

} // verus!
