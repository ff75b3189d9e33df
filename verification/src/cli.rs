//! The commands of the command line, and the parsing of its `key:value`
//! arguments.
use vstd::prelude::*;
use vstd::string::StringExecFns;
use crate::fields::{map_of, pair_views, FieldMap};
use crate::note::{tidy_list, tidy_tags};
use crate::split::{first_index, next_index};
use crate::text::{copy_range, from_chars, push_str, str_eq, to_chars, trim, trim_chars};

verus! {

/// The arguments of the command line.
#[derive(Debug, Clone)]
pub struct Cli {
    pub command: Command,
    /// Enable verbose debug output.
    pub debug: bool,
}

/// A command of the command line.
#[derive(Debug, Clone)]
pub enum Command {
    /// List the notes, filtered by date and by frontmatter fields.
    List { from: Option<String>, to: Option<String>, filter: Vec<(String, String)> },
    /// Add a note; without a body an editor is opened.
    Add { title: String, body: Option<String>, frontmatter: Vec<(String, String)> },
    /// Delete a note.
    Delete { title: String },
    /// List the observers.
    ListObservers,
    /// Synchronise all notes with the observers.
    Sync,
    /// Query the notes.
    Query { query: String, sql: bool },
    /// Watch the note directory.
    Watch,
}

/// Why a `key:value` argument was refused.
pub enum PairError {
    /// The argument holds no colon.
    NoColon,
    /// Nothing but white space stands before the first colon.
    EmptyKey,
    /// Nothing but white space stands after the first colon.
    EmptyValue,
}

/// The key and the value of a `key:value` argument: what stands before the
/// first colon and what stands after it, both trimmed and neither empty.
pub open spec fn key_value(s: Seq<char>) -> Result<(Seq<char>, Seq<char>), PairError> {
    let colon = first_index(s, ':');
    if !(0 <= colon < s.len()) {
        Err(PairError::NoColon)
    } else if trim(s.take(colon)).len() == 0 {
        Err(PairError::EmptyKey)
    } else if trim(s.skip(colon + 1)).len() == 0 {
        Err(PairError::EmptyValue)
    } else {
        Ok((trim(s.take(colon)), trim(s.skip(colon + 1))))
    }
}

/// The message that tells of the error `e` in the argument `s`.
pub open spec fn pair_error_text(e: PairError, s: Seq<char>) -> Seq<char> {
    match e {
        PairError::NoColon => "'"@ + s + "' is not a valid key:value pair (use 'key:value' format)"@,
        PairError::EmptyKey => "Key cannot be empty"@,
        PairError::EmptyValue => "Value cannot be empty"@,
    }
}

/// Parses a `key:value` argument.
pub fn parse_key_val(s: &str) -> (r: Result<(String, String), String>)
    ensures
        match r {
            Ok(pair) => key_value(s@) == Ok::<(Seq<char>, Seq<char>), PairError>((pair.0@, pair.1@)),
            Err(message) => key_value(s@) is Err && message@ == pair_error_text(
                key_value(s@)->Err_0,
                s@,
            ),
        },
{
    let chars = to_chars(s);
    assert(chars@.skip(0) == chars@);
    let colon = next_index(&chars, ':', 0);
    if colon >= chars.len() {
        let mut message = to_chars("'");
        push_str(&mut message, s);
        push_str(&mut message, "' is not a valid key:value pair (use 'key:value' format)");
        return Err(from_chars(&message));
    }
    let key = trim_chars(&copy_range(&chars, 0, colon));
    let value = trim_chars(&copy_range(&chars, colon + 1, chars.len()));
    proof {
        assert(chars@.subrange(0, colon as int) == chars@.take(colon as int));
        assert(chars@.subrange(colon + 1, chars.len() as int) == chars@.skip(colon + 1));
    }
    if key.len() == 0 {
        return Err(String::from_str("Key cannot be empty"));
    }
    if value.len() == 0 {
        return Err(String::from_str("Value cannot be empty"));
    }
    Ok((from_chars(&key), from_chars(&value)))
}

/// The pairs with the value of each `tags` in its tidy form.
pub open spec fn tidy_pairs(pairs: Seq<(Seq<char>, Seq<char>)>) -> Seq<(Seq<char>, Seq<char>)> {
    Seq::new(
        pairs.len(),
        |i: int|
            if pairs[i].0 == "tags"@ {
                (pairs[i].0, tidy_list(pairs[i].1))
            } else {
                pairs[i]
            },
    )
}

/// The frontmatter of a note to add, from the `key:value` arguments of the
/// command line: a list of tags is brought into its tidy form, and of two
/// arguments with one key the later one counts.
pub fn frontmatter_of(pairs: &Vec<(String, String)>) -> (r: FieldMap)
    ensures
        r@ == map_of(tidy_pairs(pair_views(pairs@))),
{
    let mut tidy: Vec<(String, String)> = Vec::new();
    let mut i: usize = 0;
    while i < pairs.len()
        invariant
            i <= pairs.len(),
            tidy@.len() == i,
            forall|j: int|
                0 <= j < i ==> (#[trigger] pair_views(tidy@)[j]) == tidy_pairs(pair_views(pairs@))[j],
        decreases pairs.len() - i,
    {
        let ghost before = pair_views(tidy@);
        let entry = if str_eq(pairs[i].0.as_str(), "tags") {
            (pairs[i].0.clone(), tidy_tags(pairs[i].1.as_str()))
        } else {
            (pairs[i].0.clone(), pairs[i].1.clone())
        };
        tidy.push(entry);
        assert(pair_views(tidy@) =~= before.push((entry.0@, entry.1@)));
        assert(pair_views(pairs@)[i as int] == (pairs@[i as int].0@, pairs@[i as int].1@));
        i += 1;
    }
    assert(pair_views(tidy@) =~= tidy_pairs(pair_views(pairs@)));
    FieldMap::from_pairs(&tidy)
}

} // verus!
