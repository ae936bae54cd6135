//! The command line, and the state that it sets up.

use vstd::prelude::*;
use vstd::string::*;

use crate::text;

verus! {

/// How the program is called.
pub const USAGE: &'static str = "用法: codegraph-ui --db <sqlite-db-path> --root <project-root-path>\n也支持: codegraph-ui <sqlite-db-path> <project-root-path>";

/// The two paths that the command line names.
#[derive(Debug, PartialEq, Eq)]
pub struct Config {
    pub db_path: String,
    pub root_path: String,
}

/// What a command line asks for.
pub enum Wish {
    /// To be told how the program is called.
    Help,
    /// To show the graph of the database at `db`, with the sources at `root`.
    Show { db: Seq<char>, root: Seq<char> },
    /// Nothing that can be done: a message says why.
    Unclear { message: Seq<char> },
}

/// What has been read of a command line: the paths that flags name, and the other arguments.
pub struct Reading {
    pub db: Option<Seq<char>>,
    pub root: Option<Seq<char>>,
    pub positionals: Seq<Seq<char>>,
}

/// A message, and under it how the program is called.
pub open spec fn with_usage(message: Seq<char>) -> Seq<char> {
    message + "\n"@ + USAGE@
}

/// The path behind a flag: the argument at `index`, unless there is none or it looks like a flag.
pub open spec fn path_argument(args: Seq<Seq<char>>, index: int, name: Seq<char>) -> Result<
    Seq<char>,
    Seq<char>,
> {
    if 0 <= index < args.len() && !text::begins(args[index], '-') {
        Ok(args[index])
    } else {
        Err(with_usage(name + " 缺少路径参数"@))
    }
}

/// What is read of the arguments from `index` on, after `reading`; or the message that stops it.
pub open spec fn read_from(args: Seq<Seq<char>>, index: int, reading: Reading) -> Result<
    Reading,
    Seq<char>,
>
    decreases args.len() - index,
{
    if index < 0 || index >= args.len() {
        Ok(reading)
    } else if args[index] == "--db"@ || args[index] == "--db-path"@ {
        match path_argument(args, index + 1, "--db"@) {
            Ok(path) => read_from(args, index + 2, Reading { db: Some(path), ..reading }),
            Err(message) => Err(message),
        }
    } else if args[index] == "--root"@ || args[index] == "--root-path"@ {
        match path_argument(args, index + 1, "--root"@) {
            Ok(path) => read_from(args, index + 2, Reading { root: Some(path), ..reading }),
            Err(message) => Err(message),
        }
    } else if text::begins(args[index], '-') {
        Err(with_usage("未知参数: "@ + args[index]))
    } else {
        read_from(
            args,
            index + 1,
            Reading { positionals: reading.positionals.push(args[index]), ..reading },
        )
    }
}

/// Nothing has been read.
pub open spec fn nothing_read() -> Reading {
    Reading { db: None, root: None, positionals: Seq::empty() }
}

/// The reading in which the first argument without a flag stands for a missing database path.
pub open spec fn db_settled(reading: Reading) -> Reading {
    if reading.db is None && reading.positionals.len() > 0 {
        Reading {
            db: Some(reading.positionals.first()),
            positionals: reading.positionals.drop_first(),
            ..reading
        }
    } else {
        reading
    }
}

/// The reading in which the first argument without a flag stands for a missing project path.
pub open spec fn root_settled(reading: Reading) -> Reading {
    if reading.root is None && reading.positionals.len() > 0 {
        Reading {
            root: Some(reading.positionals.first()),
            positionals: reading.positionals.drop_first(),
            ..reading
        }
    } else {
        reading
    }
}

/// What a whole reading asks for.
pub open spec fn settled(reading: Reading) -> Wish {
    let found = root_settled(db_settled(reading));
    if found.positionals.len() > 0 {
        Wish::Unclear { message: with_usage("参数过多: "@ + found.positionals.first()) }
    } else {
        match (found.db, found.root) {
            (Some(db), Some(root)) => Wish::Show { db, root },
            _ => Wish::Unclear { message: USAGE@ },
        }
    }
}

/// What a command line asks for, from its arguments without the name of the program.
pub open spec fn wish_of(args: Seq<Seq<char>>) -> Wish {
    if args.contains("-h"@) || args.contains("--help"@) {
        Wish::Help
    } else {
        match read_from(args, 0, nothing_read()) {
            Ok(reading) => settled(reading),
            Err(message) => Wish::Unclear { message },
        }
    }
}

/// Says how the program is called.
pub fn usage() -> (text: String)
    ensures
        text@ == USAGE@,
{
    USAGE.to_owned()
}

/// Puts under a message how the program is called.
fn add_usage(message: String) -> (text: String)
    ensures
        text@ == with_usage(message@),
{
    message.concat("\n").concat(USAGE)
}

/// Takes the argument at `index` as the path behind the flag `name`.
pub fn next_arg(args: &[String], index: usize, name: &str) -> (result: Result<String, String>)
    ensures
        match path_argument(text::texts(args@), index as int, name@) {
            Ok(path) => result is Ok && result->Ok_0@ == path,
            Err(message) => result is Err && result->Err_0@ == message,
        },
        result is Ok <==> index < args@.len() && !(args@[index as int]@.len() > 0
            && args@[index as int]@[0] == '-'),
        result is Ok ==> result->Ok_0@ == args@[index as int]@,
        result is Err ==> result->Err_0@ == name@ + " 缺少路径参数"@ + "\n"@ + USAGE@,
{
    if index < args.len() && !text::begins_with(args[index].as_str(), '-') {
        Ok(args[index].clone())
    } else {
        Err(add_usage(name.to_owned().concat(" 缺少路径参数")))
    }
}

/// Takes the first path out of a list, if there is any.
fn take_first(paths: &mut Vec<String>) -> (first: Option<String>)
    ensures
        old(paths)@.len() == 0 ==> first is None && final(paths)@ == old(paths)@,
        old(paths)@.len() > 0 ==> first == Some(old(paths)@.first()) && final(paths)@
            == old(paths)@.drop_first(),
{
    if paths.len() == 0 {
        None
    } else {
        let first = paths.remove(0);
        assert(paths@ =~= old(paths)@.drop_first());
        Some(first)
    }
}

impl Config {
    /// Whether a result of `parse` is what the wish says.
    pub open spec fn grants(result: Result<Option<Config>, String>, wish: Wish) -> bool {
        match wish {
            Wish::Help => result == Ok::<Option<Config>, String>(None),
            Wish::Show { db, root } => {
                &&& result matches Ok(Some(config))
                &&& config.db_path@ == db
                &&& config.root_path@ == root
            },
            Wish::Unclear { message } => result matches Err(text) && text@ == message,
        }
    }

    /// Reads the command line: `None` asks for help, an error is a message for the user.
    pub fn parse(args: &Vec<String>) -> (result: Result<Option<Config>, String>)
        ensures
            Config::grants(result, wish_of(text::texts(args@))),
            match wish_of(text::texts(args@)) {
                Wish::Help => result is Ok && result->Ok_0 is None,
                Wish::Show { db, root } => result is Ok && result->Ok_0 is Some
                    && result->Ok_0->0.db_path@ == db && result->Ok_0->0.root_path@ == root,
                Wish::Unclear { message } => result is Err && result->Err_0@ == message,
            },
    {
        let ghost views = text::texts(args@);
        for i in 0..args.len()
            invariant
                views == text::texts(args@),
                forall|k: int| 0 <= k < i ==> views[k] != "-h"@ && views[k] != "--help"@,
        {
            assert(views[i as int] == args@[i as int]@);
            if text::same_text(args[i].as_str(), "-h") || text::same_text(args[i].as_str(), "--help") {
                return Ok(None);
            }
        }
        let mut db_path: Option<String> = None;
        let mut root_path: Option<String> = None;
        let mut positionals: Vec<String> = Vec::new();
        let mut index: usize = 0;
        assert(text::texts(positionals@) =~= nothing_read().positionals);
        while index < args.len()
            invariant
                views == text::texts(args@),
                !views.contains("-h"@) && !views.contains("--help"@),
                read_from(views, 0, nothing_read()) == read_from(
                    views,
                    index as int,
                    Reading {
                        db: text::option_text(db_path),
                        root: text::option_text(root_path),
                        positionals: text::texts(positionals@),
                    },
                ),
            decreases args.len() - index,
        {
            let arg = args[index].as_str();
            assert(views[index as int] == arg@);
            if text::same_text(arg, "--db") || text::same_text(arg, "--db-path") {
                index = index + 1;
                match next_arg(args.as_slice(), index, "--db") {
                    Ok(path) => {
                        db_path = Some(path);
                    },
                    Err(message) => {
                        return Err(message);
                    },
                }
            } else if text::same_text(arg, "--root") || text::same_text(arg, "--root-path") {
                index = index + 1;
                match next_arg(args.as_slice(), index, "--root") {
                    Ok(path) => {
                        root_path = Some(path);
                    },
                    Err(message) => {
                        return Err(message);
                    },
                }
            } else if text::begins_with(arg, '-') {
                return Err(add_usage("未知参数: ".to_owned().concat(arg)));
            } else {
                let path = arg.to_owned();
                assert(text::texts(positionals@.push(path)) =~= text::texts(
                    positionals@,
                ).push(arg@));
                positionals.push(path);
            }
            index = index + 1;
        }
        let ghost reading = Reading {
            db: text::option_text(db_path),
            root: text::option_text(root_path),
            positionals: text::texts(positionals@),
        };
        assert(read_from(views, 0, nothing_read()) == Ok::<Reading, Seq<char>>(reading));
        assert(positionals@.len() > 0 ==> text::texts(positionals@.drop_first())
            =~= reading.positionals.drop_first());
        if db_path.is_none() {
            db_path = take_first(&mut positionals);
        }
        let ghost reading = db_settled(reading);
        assert(text::option_text(db_path) == reading.db);
        assert(text::texts(positionals@) =~= reading.positionals);
        assert(positionals@.len() > 0 ==> text::texts(positionals@.drop_first())
            =~= reading.positionals.drop_first());
        if root_path.is_none() {
            root_path = take_first(&mut positionals);
        }
        assert(text::option_text(root_path) == root_settled(reading).root);
        assert(text::texts(positionals@) =~= root_settled(reading).positionals);
        if positionals.len() > 0 {
            return Err(add_usage("参数过多: ".to_owned().concat(positionals[0].as_str())));
        }
        match (db_path, root_path) {
            (Some(db_path), Some(root_path)) => Ok(Some(Config { db_path, root_path })),
            _ => Err(usage()),
        }
    }
}

/// What the program works on once it has started.
#[derive(Debug, PartialEq, Eq)]
pub struct AppState {
    pub db_path: String,
    pub root_path: String,
}

impl Clone for AppState {
    fn clone(&self) -> (copy: AppState)
        ensures
            copy == *self,
    {
        AppState { db_path: self.db_path.clone(), root_path: self.root_path.clone() }
    }
}

impl AppState {
    /// Starts on a database and a project, from what was found at the two paths. An error is the
    /// message that ends the program: the database is looked at first.
    pub fn start(
        db_path: String,
        db_is_file: bool,
        root_path: String,
        root_is_dir: bool,
    ) -> (result: Result<AppState, String>)
        ensures
            result is Ok <==> db_is_file && root_is_dir,
            result matches Ok(state) ==> state.db_path == db_path && state.root_path == root_path,
            !db_is_file ==> result->Err_0@ == "db 文件不存在: "@ + db_path@,
            db_is_file && !root_is_dir ==> result->Err_0@ == "项目根路径不存在: "@
                + root_path@,
    {
        if !db_is_file {
            return Err("db 文件不存在: ".to_owned().concat(db_path.as_str()));
        }
        if !root_is_dir {
            return Err("项目根路径不存在: ".to_owned().concat(root_path.as_str()));
        }
        Ok(AppState { db_path, root_path })
    }
}

/// A help flag asks for help, whatever else is on the command line.
pub proof fn law_help_wins(args: Seq<Seq<char>>, index: int)
    requires
        0 <= index < args.len(),
        args[index] == "-h"@ || args[index] == "--help"@,
    ensures
        wish_of(args) is Help,
{
}

/// The flags and the argument behind each of them are read in any order, and two paths without
/// flags mean the same as a path behind each flag.
pub proof fn law_paths_with_and_without_flags(db: Seq<char>, root: Seq<char>)
    requires
        !text::begins(db, '-'),
        !text::begins(root, '-'),
    ensures
        wish_of(seq![db, root]) == (Wish::Show { db, root }),
        wish_of(seq!["--db"@, db, "--root"@, root]) == (Wish::Show { db, root }),
        wish_of(seq!["--root"@, root, "--db"@, db]) == (Wish::Show { db, root }),
        wish_of(seq!["--db-path"@, db, "--root-path"@, root]) == (Wish::Show { db, root }),
        wish_of(seq!["--db"@, db, root]) == (Wish::Show { db, root }),
        wish_of(seq!["--root"@, root, db]) == (Wish::Show { db, root }),
        wish_of(seq![root, "--db"@, db]) == (Wish::Show { db, root }),
        wish_of(seq![db, "--root"@, root]) == (Wish::Show { db, root }),
{
    reveal_flags();
    reveal_with_fuel(read_from, 3);
    let none = nothing_read();
    let plain = seq![db, root];
    assert(read_from(plain, 0, none)->Ok_0.positionals =~= plain);
    assert(plain.drop_first() =~= seq![root]);
    assert(seq![root].drop_first() =~= Seq::empty());
    assert(seq![db].drop_first() =~= Seq::empty());
    assert(none.positionals.push(root) =~= seq![root]);
    assert(none.positionals.push(db) =~= seq![db]);
}

/// Of two paths behind one flag the later one counts.
pub proof fn law_later_flag_counts(earlier: Seq<char>, db: Seq<char>, root: Seq<char>)
    requires
        !text::begins(earlier, '-'),
        !text::begins(db, '-'),
        !text::begins(root, '-'),
    ensures
        wish_of(seq!["--db"@, earlier, "--db"@, db, "--root"@, root]) == (Wish::Show { db, root }),
        wish_of(seq!["--db"@, db, "--root"@, earlier, "--root"@, root]) == (Wish::Show {
            db,
            root,
        }),
{
    reveal_flags();
    reveal_with_fuel(read_from, 4);
}

/// Whether every path of a reading is an argument that does not look like a flag.
spec fn holds_arguments(args: Seq<Seq<char>>, reading: Reading) -> bool {
    &&& reading.db matches Some(path) ==> args.contains(path) && !text::begins(path, '-')
    &&& reading.root matches Some(path) ==> args.contains(path) && !text::begins(path, '-')
    &&& forall|i: int|
        0 <= i < reading.positionals.len() ==> args.contains(#[trigger] reading.positionals[i])
            && !text::begins(reading.positionals[i], '-')
}

/// Reading on only finds arguments, and a message that stops it ends with the usage.
proof fn lemma_read_from(args: Seq<Seq<char>>, index: int, reading: Reading)
    requires
        0 <= index,
        holds_arguments(args, reading),
    ensures
        match read_from(args, index, reading) {
            Ok(found) => holds_arguments(args, found),
            Err(message) => USAGE@.is_suffix_of(message),
        },
    decreases args.len() - index,
{
    if index < args.len() {
        let arg = args[index];
        if arg == "--db"@ || arg == "--db-path"@ {
            lemma_with_usage("--db"@ + " 缺少路径参数"@);
            match path_argument(args, index + 1, "--db"@) {
                Ok(path) => {
                    lemma_read_from(args, index + 2, Reading { db: Some(path), ..reading });
                },
                Err(_) => {},
            }
        } else if arg == "--root"@ || arg == "--root-path"@ {
            lemma_with_usage("--root"@ + " 缺少路径参数"@);
            match path_argument(args, index + 1, "--root"@) {
                Ok(path) => {
                    lemma_read_from(args, index + 2, Reading { root: Some(path), ..reading });
                },
                Err(_) => {},
            }
        } else if text::begins(arg, '-') {
            lemma_with_usage("未知参数: "@ + arg);
        } else {
            let longer = Reading { positionals: reading.positionals.push(arg), ..reading };
            assert(holds_arguments(args, longer));
            lemma_read_from(args, index + 1, longer);
        }
    }
}

/// A message with the usage under it ends with the usage.
proof fn lemma_with_usage(message: Seq<char>)
    ensures
        USAGE@.is_suffix_of(with_usage(message)),
{
    let whole = with_usage(message);
    assert(whole.subrange(whole.len() - USAGE@.len(), whole.len() as int) =~= USAGE@);
}

/// Both paths that are taken from a command line stand on it, and neither looks like a flag.
pub proof fn law_paths_are_arguments(args: Seq<Seq<char>>)
    ensures
        wish_of(args) matches Wish::Show { db, root } ==> {
            &&& args.contains(db) && !text::begins(db, '-')
            &&& args.contains(root) && !text::begins(root, '-')
        },
{
    lemma_read_from(args, 0, nothing_read());
}

/// Whoever is not understood is told how the program is called.
pub proof fn law_refusal_shows_usage(args: Seq<Seq<char>>)
    ensures
        wish_of(args) matches Wish::Unclear { message } ==> USAGE@.is_suffix_of(message),
{
    lemma_read_from(args, 0, nothing_read());
    match read_from(args, 0, nothing_read()) {
        Ok(reading) => {
            let found = root_settled(db_settled(reading));
            lemma_with_usage("参数过多: "@ + found.positionals.first());
            assert(USAGE@.subrange(0, USAGE@.len() as int) =~= USAGE@);
        },
        Err(_) => {},
    }
}

/// Reading arguments of which none looks like a flag keeps them all.
proof fn lemma_read_positionals(args: Seq<Seq<char>>, index: int, reading: Reading)
    requires
        0 <= index <= args.len(),
        forall|i: int| 0 <= i < args.len() ==> !text::begins(#[trigger] args[i], '-'),
    ensures
        read_from(args, index, reading) == Ok::<Reading, Seq<char>>(
            Reading { positionals: reading.positionals + args.skip(index), ..reading },
        ),
    decreases args.len() - index,
{
    reveal_flags();
    if index < args.len() {
        let longer = Reading { positionals: reading.positionals.push(args[index]), ..reading };
        lemma_read_positionals(args, index + 1, longer);
        assert(longer.positionals + args.skip(index + 1) =~= reading.positionals + args.skip(
            index,
        ));
    } else {
        assert(reading.positionals + args.skip(index) =~= reading.positionals);
    }
}

/// Without flags exactly two arguments are understood: fewer bring the usage, and of more the third
/// is named as one too many.
pub proof fn law_arguments_without_flags(args: Seq<Seq<char>>)
    requires
        forall|i: int| 0 <= i < args.len() ==> !text::begins(#[trigger] args[i], '-'),
    ensures
        args.len() < 2 ==> wish_of(args) == (Wish::Unclear { message: USAGE@ }),
        args.len() == 2 ==> wish_of(args) == (Wish::Show { db: args[0], root: args[1] }),
        args.len() > 2 ==> wish_of(args) == (Wish::Unclear {
            message: with_usage("参数过多: "@ + args[2]),
        }),
{
    reveal_flags();
    lemma_read_positionals(args, 0, nothing_read());
    assert(nothing_read().positionals + args.skip(0) =~= args);
}

/// What the names of the flags are made of.
proof fn reveal_flags()
    ensures
        forall|path: Seq<char>| !text::begins(path, '-') ==> path != "-h"@ && path != "--help"@
            && path != "--db"@ && path != "--db-path"@ && path != "--root"@ && path
            != "--root-path"@,
        text::begins("-h"@, '-'),
        text::begins("--help"@, '-'),
        text::begins("--db"@, '-'),
        text::begins("--db-path"@, '-'),
        text::begins("--root"@, '-'),
        text::begins("--root-path"@, '-'),
        "--db"@ != "-h"@ && "--db"@ != "--help"@ && "--db"@ != "--root"@ && "--db"@ != "--root-path"@,
        "--db-path"@ != "-h"@ && "--db-path"@ != "--help"@ && "--db-path"@ != "--root"@
            && "--db-path"@ != "--root-path"@,
        "--root"@ != "-h"@ && "--root"@ != "--help"@,
        "--root-path"@ != "-h"@ && "--root-path"@ != "--help"@,
{
    reveal_strlit("-h");
    reveal_strlit("--help");
    reveal_strlit("--db");
    reveal_strlit("--db-path");
    reveal_strlit("--root");
    reveal_strlit("--root-path");
    assert("--db"@.len() == 4 && "--root"@.len() == 6 && "--help"@.len() == 6);
    assert("--root"@[2] == 'r' && "--help"@[2] == 'h');
    assert("--db-path"@.len() == 9 && "--root-path"@.len() == 11);
}

/// What a command line is made of: a path behind the flag for the database or behind the one for the
/// project, or a path without a flag.
pub enum Item {
    Db { flag: Seq<char>, path: Seq<char> },
    Root { flag: Seq<char>, path: Seq<char> },
    Plain { path: Seq<char> },
}

/// Whether a word is a flag for the path of the database.
pub open spec fn is_db_flag(word: Seq<char>) -> bool {
    word == "--db"@ || word == "--db-path"@
}

/// Whether a word is a flag for the path of the project.
pub open spec fn is_root_flag(word: Seq<char>) -> bool {
    word == "--root"@ || word == "--root-path"@
}

/// Whether a word begins with a dash.
pub open spec fn is_dashed(word: Seq<char>) -> bool {
    word.len() > 0 && word[0] == '-'
}

/// Whether an item has one of its two flags, and a path that does not begin with a dash.
pub open spec fn well_formed(item: Item) -> bool {
    match item {
        Item::Db { flag, path } => is_db_flag(flag) && !is_dashed(path),
        Item::Root { flag, path } => is_root_flag(flag) && !is_dashed(path),
        Item::Plain { path } => !is_dashed(path),
    }
}

/// The arguments of an item.
pub open spec fn words(item: Item) -> Seq<Seq<char>> {
    match item {
        Item::Db { flag, path } => seq![flag, path],
        Item::Root { flag, path } => seq![flag, path],
        Item::Plain { path } => seq![path],
    }
}

/// The arguments of items, one behind the other.
pub open spec fn written(items: Seq<Item>) -> Seq<Seq<char>>
    decreases items.len(),
{
    if items.len() == 0 {
        seq![]
    } else {
        written(items.drop_last()) + words(items.last())
    }
}

/// The last path behind a flag for the database.
pub open spec fn db_named(items: Seq<Item>) -> Option<Seq<char>>
    decreases items.len(),
{
    if items.len() == 0 {
        None
    } else {
        match items.last() {
            Item::Db { flag, path } => Some(path),
            _ => db_named(items.drop_last()),
        }
    }
}

/// The last path behind a flag for the project.
pub open spec fn root_named(items: Seq<Item>) -> Option<Seq<char>>
    decreases items.len(),
{
    if items.len() == 0 {
        None
    } else {
        match items.last() {
            Item::Root { flag, path } => Some(path),
            _ => root_named(items.drop_last()),
        }
    }
}

/// The paths without a flag, in their order.
pub open spec fn plain_paths(items: Seq<Item>) -> Seq<Seq<char>>
    decreases items.len(),
{
    if items.len() == 0 {
        seq![]
    } else {
        match items.last() {
            Item::Plain { path } => plain_paths(items.drop_last()).push(path),
            _ => plain_paths(items.drop_last()),
        }
    }
}

/// Items are read one by one.
proof fn lemma_items_are_read(args: Seq<Seq<char>>, items: Seq<Item>, tail: Seq<Seq<char>>)
    requires
        args == written(items) + tail,
        forall|i: int| 0 <= i < items.len() ==> well_formed(#[trigger] items[i]),
    ensures
        read_from(args, 0, nothing_read()) == read_from(
            args,
            written(items).len() as int,
            Reading {
                db: db_named(items),
                root: root_named(items),
                positionals: plain_paths(items),
            },
        ),
    decreases items.len(),
{
    reveal_flags();
    if items.len() == 0 {
        assert(plain_paths(items) =~= nothing_read().positionals);
    } else {
        let before = items.drop_last();
        let last = items.last();
        assert(last == items[items.len() - 1]);
        assert(args =~= written(before) + (words(last) + tail));
        lemma_items_are_read(args, before, words(last) + tail);
        let at = written(before).len() as int;
        assert(args[at] == words(last)[0]);
        if words(last).len() == 2 {
            assert(args[at + 1] == words(last)[1]);
        }
    }
}

/// A command line of items asks to show a database and a project. The last path behind a flag counts,
/// and paths without a flag stand for those that no flag names, the database first. With fewer paths
/// the usage is shown, and the first path that is left over is named as one too many.
pub proof fn law_items_name_two_paths(items: Seq<Item>)
    requires
        forall|i: int| 0 <= i < items.len() ==> well_formed(#[trigger] items[i]),
    ensures
        ({
            let wish = wish_of(written(items));
            let rest = plain_paths(items);
            match (db_named(items), root_named(items)) {
                (Some(db), Some(root)) => {
                    &&& rest.len() == 0 ==> wish == (Wish::Show { db, root })
                    &&& rest.len() > 0 ==> wish == (Wish::Unclear {
                        message: "参数过多: "@ + rest[0] + "\n"@ + USAGE@,
                    })
                },
                (Some(db), None) => {
                    &&& rest.len() == 0 ==> wish == (Wish::Unclear { message: USAGE@ })
                    &&& rest.len() == 1 ==> wish == (Wish::Show { db, root: rest[0] })
                    &&& rest.len() > 1 ==> wish == (Wish::Unclear {
                        message: "参数过多: "@ + rest[1] + "\n"@ + USAGE@,
                    })
                },
                (None, Some(root)) => {
                    &&& rest.len() == 0 ==> wish == (Wish::Unclear { message: USAGE@ })
                    &&& rest.len() == 1 ==> wish == (Wish::Show { db: rest[0], root })
                    &&& rest.len() > 1 ==> wish == (Wish::Unclear {
                        message: "参数过多: "@ + rest[1] + "\n"@ + USAGE@,
                    })
                },
                (None, None) => {
                    &&& rest.len() < 2 ==> wish == (Wish::Unclear { message: USAGE@ })
                    &&& rest.len() == 2 ==> wish == (Wish::Show { db: rest[0], root: rest[1] })
                    &&& rest.len() > 2 ==> wish == (Wish::Unclear {
                        message: "参数过多: "@ + rest[2] + "\n"@ + USAGE@,
                    })
                },
            }
        }),
{
    let args = written(items);
    assert(args + Seq::<Seq<char>>::empty() =~= args);
    lemma_items_are_read(args, items, Seq::empty());
    lemma_items_ask_for_no_help(items);
}

/// No item is a flag that asks for help.
proof fn lemma_items_ask_for_no_help(items: Seq<Item>)
    requires
        forall|i: int| 0 <= i < items.len() ==> well_formed(#[trigger] items[i]),
    ensures
        !written(items).contains("-h"@),
        !written(items).contains("--help"@),
    decreases items.len(),
{
    reveal_flags();
    if items.len() > 0 {
        let before = items.drop_last();
        lemma_items_ask_for_no_help(before);
        let last = items.last();
        assert(well_formed(items[items.len() - 1]));
        let all = written(items);
        assert forall|i: int| 0 <= i < all.len() implies all[i] != "-h"@ && all[i] != "--help"@ by {
            if i < written(before).len() {
                assert(written(before)[i] == all[i]);
                assert(written(before).contains(all[i]));
            } else {
                assert(all[i] == words(last)[i - written(before).len()]);
            }
        }
    }
}

/// What stops the reading of a command line is named: a word behind the items that begins with a dash
/// and is no flag, or a flag without a path behind it.
pub proof fn law_first_word_that_is_no_item_is_named(items: Seq<Item>, tail: Seq<Seq<char>>)
    requires
        forall|i: int| 0 <= i < items.len() ==> well_formed(#[trigger] items[i]),
        tail.len() > 0,
        !tail.contains("-h"@),
        !tail.contains("--help"@),
    ensures
        is_dashed(tail[0]) && !is_db_flag(tail[0]) && !is_root_flag(tail[0]) ==> wish_of(
            written(items) + tail,
        ) == (Wish::Unclear { message: "未知参数: "@ + tail[0] + "\n"@ + USAGE@ }),
        is_db_flag(tail[0]) && (tail.len() == 1 || is_dashed(tail[1])) ==> wish_of(
            written(items) + tail,
        ) == (Wish::Unclear { message: "--db"@ + " 缺少路径参数"@ + "\n"@ + USAGE@ }),
        is_root_flag(tail[0]) && (tail.len() == 1 || is_dashed(tail[1])) ==> wish_of(
            written(items) + tail,
        ) == (Wish::Unclear { message: "--root"@ + " 缺少路径参数"@ + "\n"@ + USAGE@ }),
{
    reveal_flags();
    let start = written(items);
    let args = start + tail;
    lemma_items_are_read(args, items, tail);
    lemma_items_ask_for_no_help(items);
    assert forall|i: int| 0 <= i < args.len() implies args[i] != "-h"@ && args[i] != "--help"@ by {
        if i < start.len() {
            assert(start.contains(args[i]));
        } else {
            assert(args[i] == tail[i - start.len()]);
            assert(tail.contains(args[i]));
        }
    }
    assert(args[start.len() as int] == tail[0]);
    if tail.len() > 1 {
        assert(args[start.len() as int + 1] == tail[1]);
    }
}

/// Whether the first word behind some items, if there is any, is no item.
pub open spec fn stops(tail: Seq<Seq<char>>) -> bool {
    ||| tail.len() == 0
    ||| is_dashed(tail[0]) && !is_db_flag(tail[0]) && !is_root_flag(tail[0])
    ||| (is_db_flag(tail[0]) || is_root_flag(tail[0])) && (tail.len() == 1 || is_dashed(tail[1]))
}

proof fn lemma_items_of(items: Seq<Item>, tail: Seq<Seq<char>>) -> (parts: (
    Seq<Item>,
    Seq<Seq<char>>,
))
    requires
        forall|i: int| 0 <= i < items.len() ==> well_formed(#[trigger] items[i]),
    ensures
        forall|i: int| 0 <= i < parts.0.len() ==> well_formed(#[trigger] parts.0[i]),
        stops(parts.1),
        written(parts.0) + parts.1 == written(items) + tail,
    decreases tail.len(),
{
    if stops(tail) {
        (items, tail)
    } else {
        let item = if is_db_flag(tail[0]) {
            Item::Db { flag: tail[0], path: tail[1] }
        } else if is_root_flag(tail[0]) {
            Item::Root { flag: tail[0], path: tail[1] }
        } else {
            Item::Plain { path: tail[0] }
        };
        let size = words(item).len() as int;
        assert(items.push(item).drop_last() =~= items);
        assert(written(items.push(item)) + tail.skip(size) =~= written(items) + tail);
        lemma_items_of(items.push(item), tail.skip(size))
    }
}

/// Every command line is made of items up to its end, or up to a word that stops the reading.
pub proof fn law_command_line_is_made_of_items(args: Seq<Seq<char>>)
    ensures
        exists|items: Seq<Item>, tail: Seq<Seq<char>>|
            {
                &&& forall|i: int| 0 <= i < items.len() ==> well_formed(#[trigger] items[i])
                &&& #[trigger] stops(tail)
                &&& args == #[trigger] written(items) + tail
            },
{
    assert(written(Seq::<Item>::empty()) + args =~= args);
    let parts = lemma_items_of(Seq::empty(), args);
    assert(stops(parts.1) && args == written(parts.0) + parts.1);
}

/// Help is shown if and only if a help flag is on the command line.
pub proof fn law_help_is_shown_on_demand(args: Seq<Seq<char>>)
    ensures
        wish_of(args) is Help <==> args.contains("-h"@) || args.contains("--help"@),
{
}

/// A wish is granted by its own result: help by none, two paths by these paths, and what is unclear
/// by the message.
pub proof fn law_wish_is_granted_as_it_is(result: Result<Option<Config>, String>, wish: Wish)
    requires
        Config::grants(result, wish),
    ensures
        wish is Help ==> result is Ok && result->Ok_0 is None,
        wish is Show ==> result is Ok && result->Ok_0 is Some && result->Ok_0->0.db_path@ == wish->db
            && result->Ok_0->0.root_path@ == wish->root,
        wish is Unclear ==> result is Err && result->Err_0@ == wish->message,
{
}

} // verus!
