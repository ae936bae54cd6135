//! Where the files are that a path names.

use vstd::prelude::*;

verus! {

/// Whether a path is absolute, that is, names a file without regard to any directory.
pub uninterp spec fn absolute_path(path: Seq<char>) -> bool;

/// The path that is reached from the directory `base` along `path`.
pub uninterp spec fn joined_path(base: Seq<char>, path: Seq<char>) -> Seq<char>;

/// Asks `std::path::Path::is_absolute`. The contract claims that the answer follows from the
/// characters of the path alone: no file and no current directory is looked at. How an absolute
/// path is spelled is left unsaid.
#[verifier::external_body]
fn is_absolute(path: &str) -> (absolute: bool)
    ensures
        absolute == absolute_path(path@),
{
    std::path::Path::new(path).is_absolute()
}

/// Whether a path begins with the name of a drive, a letter and a colon. Where there are drives, such
/// a path may lead from a directory of its own on that drive, and so be taken from no other.
pub open spec fn names_drive(path: Seq<char>) -> bool {
    path.len() > 1 && path[1] == ':'
}

/// Calls `std::path::Path::join` and displays what it returns. The contract claims that the result
/// follows from the characters of the two paths alone, that an absolute path takes the place of the
/// directory that it is joined to, and that any path taken from an absolute directory is absolute,
/// unless it names a drive. How the two are put together otherwise is left unsaid.
#[verifier::external_body]
fn join_path(base: &str, path: &str) -> (joined: String)
    ensures
        joined@ == joined_path(base@, path@),
        absolute_path(path@) ==> joined@ == path@,
        absolute_path(base@) && !names_drive(path@) ==> absolute_path(joined@),
{
    std::path::Path::new(base).join(path).display().to_string()
}

/// The path under which a file is found: an absolute path stands as it is, any other is taken from
/// the directory `base`.
pub open spec fn resolved_path(base: Seq<char>, path: Seq<char>) -> Seq<char> {
    if absolute_path(path) {
        path
    } else {
        joined_path(base, path)
    }
}

/// Chooses between a path as it was given and the same path taken from a directory.
pub fn choose_path(absolute: bool, path: String, joined: String) -> (chosen: String)
    ensures
        chosen == if absolute { path } else { joined },
{
    if absolute {
        path
    } else {
        joined
    }
}

/// Finds the source file that a node of the graph names, in the project at `root`.
pub fn resolve_source_path(root: &str, file_path: &str) -> (source_path: String)
    ensures
        source_path@ == resolved_path(root@, file_path@),
        absolute_path(file_path@) ==> source_path@ == file_path@,
        !absolute_path(file_path@) ==> source_path@ == joined_path(root@, file_path@),
{
    choose_path(is_absolute(file_path), file_path.to_owned(), join_path(root, file_path))
}

/// Chooses between a path as it was given and the same path taken from a directory that perhaps
/// could not be had.
pub fn choose_known_path<E>(absolute: bool, path: String, joined: Result<String, E>) -> (chosen:
    Result<String, E>)
    ensures
        chosen == if absolute { Ok::<String, E>(path) } else { joined },
{
    if absolute {
        Ok(path)
    } else {
        joined
    }
}

/// The path that is meant, by the current directory, which only counts for a path that is not
/// absolute; or the reason why the directory could not be had.
pub open spec fn normalized_path<E>(path: Seq<char>, current_dir: Result<Seq<char>, E>) -> Result<
    Seq<char>,
    E,
> {
    if absolute_path(path) {
        Ok(path)
    } else {
        match current_dir {
            Ok(directory) => Ok(joined_path(directory, path)),
            Err(reason) => Err(reason),
        }
    }
}

/// The characters of a string that perhaps could not be had.
pub open spec fn result_text<E>(value: Result<String, E>) -> Result<Seq<char>, E> {
    match value {
        Ok(value) => Ok(value@),
        Err(reason) => Err(reason),
    }
}

/// Makes a path absolute. The current directory, which is absolute itself, only counts for a path
/// that is not: then, if it could not be had, the reason is handed back.
pub fn normalize_path<E>(path: &str, current_dir: Result<String, E>) -> (result: Result<String, E>)
    ensures
        result_text(result) == normalized_path(path@, result_text(current_dir)),
        absolute_path(path@) ==> result is Ok && result->Ok_0@ == path@,
        !absolute_path(path@) ==> match current_dir {
            Ok(directory) => result is Ok && result->Ok_0@ == joined_path(directory@, path@),
            Err(reason) => result == Err::<String, E>(reason),
        },
        absolute_path(path@) ==> result is Ok && absolute_path(result->Ok_0@),
        current_dir matches Ok(directory) && absolute_path(directory@) && !names_drive(path@)
            ==> result is Ok && absolute_path(result->Ok_0@),
{
    let joined = match current_dir {
        Ok(directory) => Ok(join_path(directory.as_str(), path)),
        Err(reason) => Err(reason),
    };
    choose_known_path(is_absolute(path), path.to_owned(), joined)
}

/// A path that has been made absolute is left alone from then on, whatever the current directory is
/// and whether or not it can be had.
pub proof fn law_normalized_path_stands<E>(
    path: Seq<char>,
    one: Result<Seq<char>, E>,
    other: Result<Seq<char>, E>,
)
    requires
        normalized_path(path, one) is Ok,
        absolute_path(normalized_path(path, one)->Ok_0),
    ensures
        normalized_path(normalized_path(path, one)->Ok_0, other) == normalized_path(path, one),
{
}

/// An absolute path names one file, whatever directory it is taken from.
pub proof fn law_absolute_path_stands(one: Seq<char>, other: Seq<char>, path: Seq<char>)
    requires
        absolute_path(path),
    ensures
        resolved_path(one, path) == path,
        resolved_path(one, path) == resolved_path(other, path),
{
}

/// A path that is not absolute is taken from the directory, and only the directory decides whether
/// it can be had.
pub proof fn law_other_paths_are_taken_from_the_directory<E>(
    base: Seq<char>,
    path: Seq<char>,
    reason: E,
)
    requires
        !absolute_path(path),
    ensures
        resolved_path(base, path) == joined_path(base, path),
        normalized_path(path, Ok::<Seq<char>, E>(base)) == Ok::<Seq<char>, E>(
            joined_path(base, path),
        ),
        normalized_path(path, Err::<Seq<char>, E>(reason)) == Err::<Seq<char>, E>(reason),
{
}

} // verus!
