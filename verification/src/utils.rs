//! File names and paths of notes.
//!
//! In the file name of a note each blank of the title is written `%20`.
use std::path::{Path, PathBuf};
use vstd::prelude::*;
use crate::settings::Settings;
use crate::text::{
    copy_range, from_chars, matches_at, occurs_at, opt_text, push_all, push_str, to_chars,
};

verus! {

/// A path of the file system, of which nothing is known.
#[verifier::external_type_specification]
#[verifier::external_body]
pub struct ExPathBuf(PathBuf);

/// `Path::file_stem` of the path `path`, where it has one that is valid
/// Unicode. What counts as a separator depends on the platform, so nothing
/// is said of the result.
#[verifier::external_body]
pub(crate) fn path_file_stem(path: &str) -> (r: Option<String>) {
    Path::new(path).file_stem().and_then(|s| s.to_str()).map(|s| s.to_string())
}

/// `Path::join` of the directory `dir` and the file name `file`, as a
/// string where the result is valid Unicode. The separator depends on the
/// platform, so nothing is said of the result.
#[verifier::external_body]
pub(crate) fn path_join(dir: &str, file: &str) -> (r: Option<String>) {
    Path::new(dir).join(file).to_str().map(|s| s.to_string())
}

/// `Path::join` of the directory `dir` and the file name `file`.
#[verifier::external_body]
fn path_buf_join(dir: &str, file: &str) -> (r: PathBuf) {
    Path::new(dir).join(file)
}

/// `s` with each occurrence of `pat` replaced by `rep`, the occurrences
/// taken from left to right and never overlapping. An empty pattern occurs
/// nowhere.
pub open spec fn replaced(s: Seq<char>, pat: Seq<char>, rep: Seq<char>) -> Seq<char>
    decreases s.len(),
{
    if pat.len() == 0 || s.len() == 0 {
        s
    } else if occurs_at(s, pat, 0) {
        rep + replaced(s.skip(pat.len() as int), pat, rep)
    } else {
        seq![s[0]] + replaced(s.drop_first(), pat, rep)
    }
}

/// Replaces each occurrence of `pat` in `s` by `rep`.
pub fn replace_all(s: &Vec<char>, pat: &Vec<char>, rep: &Vec<char>) -> (r: Vec<char>)
    ensures
        r@ == replaced(s@, pat@, rep@),
{
    if pat.len() == 0 {
        return copy_range(s, 0, s.len());
    }
    let mut out: Vec<char> = Vec::new();
    let mut i: usize = 0;
    assert(s@.skip(0) == s@);
    while i < s.len()
        invariant
            i <= s.len(),
            pat.len() > 0,
            replaced(s@, pat@, rep@) == out@ + replaced(s@.skip(i as int), pat@, rep@),
        decreases s.len() - i,
    {
        let ghost rest = s@.skip(i as int);
        let ghost before = out@;
        if matches_at(s, pat, i) {
            proof {
                assert(rest.subrange(0, pat.len() as int) == s@.subrange(i as int, i + pat.len()));
                assert(occurs_at(rest, pat@, 0));
                assert(rest.skip(pat.len() as int) == s@.skip(i + pat.len()));
            }
            push_all(&mut out, rep);
            assert(before + (rep@ + replaced(s@.skip(i + pat.len()), pat@, rep@)) == before + rep@
                + replaced(s@.skip(i + pat.len()), pat@, rep@));
            i = i + pat.len();
        } else {
            proof {
                if i + pat.len() <= s.len() {
                    assert(rest.subrange(0, pat.len() as int) == s@.subrange(
                        i as int,
                        i + pat.len(),
                    ));
                }
                assert(!occurs_at(rest, pat@, 0));
                assert(rest.drop_first() == s@.skip(i + 1));
                assert(rest[0] == s@[i as int]);
            }
            out.push(s[i]);
            assert(before + (seq![s@[i as int]] + replaced(s@.skip(i + 1), pat@, rep@))
                == before.push(s@[i as int]) + replaced(s@.skip(i + 1), pat@, rep@));
            i += 1;
        }
    }
    assert(replaced(s@.skip(s.len() as int), pat@, rep@) == Seq::<char>::empty());
    assert(out@ + Seq::<char>::empty() == out@);
    out
}

/// The file name of the note `title`: the title with `%20` for each blank,
/// a dot, and the extension.
pub open spec fn note_file_name(title: Seq<char>, file_type: Seq<char>) -> Seq<char> {
    replaced(title, " "@, "%20"@) + "."@ + file_type
}

/// The file name of the note `title`.
pub fn file_name_of(title: &str, file_type: &str) -> (r: String)
    ensures
        r@ == note_file_name(title@, file_type@),
{
    let mut name = replace_all(&to_chars(title), &to_chars(" "), &to_chars("%20"));
    push_str(&mut name, ".");
    push_str(&mut name, file_type);
    from_chars(&name)
}

/// The path of a note as text, where joining the directory and the file
/// name gave `joined`: the joined path, or, where it is no text, the
/// directory, a slash and the file name.
pub open spec fn note_path(
    joined: Option<Seq<char>>,
    title: Seq<char>,
    note_dir: Seq<char>,
    file_type: Seq<char>,
) -> Seq<char> {
    match joined {
        Some(p) => p,
        None => note_dir + "/"@ + note_file_name(title, file_type),
    }
}

/// The path of the note `title`, given what joining the note directory
/// and the file name gave.
pub fn note_path_from(joined: Option<String>, title: &str, settings: &Settings) -> (r: String)
    ensures
        r@ == note_path(opt_text(joined), title@, settings.note_dir@, settings.file_type@),
{
    match joined {
        Some(p) => p,
        None => {
            let mut path = to_chars(settings.note_dir.as_str());
            push_str(&mut path, "/");
            push_str(&mut path, file_name_of(title, settings.file_type.as_str()).as_str());
            from_chars(&path)
        },
    }
}

/// The path of the file of the note `title` in the note directory, as text.
pub fn get_absolute_note_path(title: &str, settings: &Settings) -> (r: String)
    ensures
        exists|joined: Option<Seq<char>>| #[trigger]
            note_path(joined, title@, settings.note_dir@, settings.file_type@) == r@,
{
    let file = file_name_of(title, settings.file_type.as_str());
    let joined = path_join(settings.note_dir.as_str(), file.as_str());
    let ghost j = opt_text(joined);
    let r = note_path_from(joined, title, settings);
    assert(note_path(j, title@, settings.note_dir@, settings.file_type@) == r@);
    r
}

/// The path of the file of the note `title` in the note directory.
pub fn get_fs_path(title: &str, settings: &Settings) -> PathBuf {
    let file = file_name_of(title, settings.file_type.as_str());
    path_buf_join(settings.note_dir.as_str(), file.as_str())
}

/// The title of the note whose file has the stem `stem`: the stem with a
/// blank for each `%20`; the empty title where there is no stem.
pub open spec fn title_of_stem(stem: Option<Seq<char>>) -> Seq<char> {
    match stem {
        Some(s) => replaced(s, "%20"@, " "@),
        None => Seq::empty(),
    }
}

/// The title of the note whose file has the stem `stem`.
pub fn title_from_stem(stem: Option<String>) -> (r: String)
    ensures
        r@ == title_of_stem(opt_text(stem)),
{
    match stem {
        Some(s) => from_chars(&replace_all(&to_chars(s.as_str()), &to_chars("%20"), &to_chars(" "))),
        None => String::new(),
    }
}

/// The title of the note that the file at `path` holds.
pub fn get_note_title_from_path(path: &str) -> (r: String)
    ensures
        exists|stem: Option<Seq<char>>| #[trigger] title_of_stem(stem) == r@,
{
    let stem = path_file_stem(path);
    let ghost s = opt_text(stem);
    let r = title_from_stem(stem);
    assert(title_of_stem(s) == r@);
    r
}

} // verus!
