//! Paths of files, as texts with slashes, and where the files of a program are.

pub mod laws;

use crate::text;
use vstd::prelude::*;

verus! {

/// A path inside a directory.
pub open spec fn inside(directory: Seq<char>, name: Seq<char>) -> Seq<char> {
    if directory.len() == 0 || directory.last() == '/' {
        directory + name
    } else {
        directory + "/"@ + name
    }
}

/// Where the components of a path begin: after the slash of an absolute path,
/// and after the dot of one that starts in the current directory.
pub open spec fn body_start(path: Seq<char>) -> int {
    if path.len() > 0 && path[0] == '/' {
        1
    } else if path.len() > 0 && path[0] == '.' && (path.len() == 1 || path[1] == '/') {
        1
    } else {
        0
    }
}

/// Where the last component of a path begins, if none begins before `start`.
pub open spec fn last_start(path: Seq<char>, start: int) -> int
    decreases path.len(),
{
    if path.len() == 0 || path.len() <= start {
        start
    } else if path.last() == '/' {
        path.len() as int
    } else {
        last_start(path.drop_last(), start)
    }
}

/// Whether a component says nothing: it is empty, or the current directory.
pub open spec fn is_idle(component: Seq<char>) -> bool {
    component.len() == 0 || component == "."@
}

/// A path without its last component, and without the slash before it.
pub open spec fn without_last(path: Seq<char>, start: int) -> Seq<char> {
    let from = last_start(path, start);
    if from > start {
        path.take(from - 1)
    } else {
        path.take(from)
    }
}

/// The last component of a path.
pub open spec fn last_component(path: Seq<char>, start: int) -> Seq<char> {
    path.skip(last_start(path, start))
}

proof fn lemma_last_start(path: Seq<char>, start: int)
    requires
        0 <= start <= path.len(),
    ensures
        start <= last_start(path, start) <= path.len(),
        last_start(path, start) > start ==> path[last_start(path, start) - 1] == '/',
        forall|i: int| last_start(path, start) <= i < path.len() ==> path[i] != '/',
    decreases path.len(),
{
    if path.len() > start && path.last() != '/' {
        lemma_last_start(path.drop_last(), start);
        let from = last_start(path, start);
        assert forall|i: int| from <= i < path.len() implies path[i] != '/' by {
            if i < path.len() - 1 {
                assert(path.drop_last()[i] == path[i]);
            }
        }
    }
}

/// A path without the idle components at its end.
pub open spec fn settled(path: Seq<char>, start: int) -> Seq<char>
    decreases path.len(),
    when 0 <= start
    via settled_decreases
{
    if path.len() <= start || !is_idle(last_component(path, start)) {
        path
    } else {
        settled(without_last(path, start), start)
    }
}

#[via_fn]
proof fn settled_decreases(path: Seq<char>, start: int) {
    if path.len() > start {
        lemma_last_start(path, start);
    }
}

/// A path with another file name; where the path has no file name, the path
/// inside it.
pub open spec fn sibling(path: Seq<char>, name: Seq<char>) -> Seq<char> {
    let start = body_start(path);
    let whole = settled(path, start);
    if whole.len() <= start || last_component(whole, start) == ".."@ {
        inside(path, name)
    } else {
        inside(settled(without_last(whole, start), start), name)
    }
}

/// A path inside a directory.
pub fn join(directory: &str, name: &str) -> (r: String)
    ensures
        r@ == inside(directory@, name@),
{
    let cs = text::chars_of(directory);
    if cs.len() == 0 || cs[cs.len() - 1] == '/' {
        text::concat(directory, name)
    } else {
        text::concat3(directory, "/", name)
    }
}

fn find_last_start(cs: &Vec<char>, len: usize, start: usize) -> (r: usize)
    requires
        start <= len <= cs@.len(),
    ensures
        r == last_start(cs@.take(len as int), start as int),
        start <= r <= len,
{
    let mut i: usize = len;
    while i > start && cs[i - 1] != '/'
        invariant
            start <= i <= len <= cs@.len(),
            last_start(cs@.take(len as int), start as int) == last_start(
                cs@.take(i as int),
                start as int,
            ),
        decreases i,
    {
        proof {
            assert(cs@.take(i as int).drop_last() =~= cs@.take(i - 1));
        }
        i = i - 1;
    }
    i
}

/// The length of a path without the idle components at its end.
fn find_settled(cs: &Vec<char>, len: usize, start: usize) -> (r: usize)
    requires
        start <= len <= cs@.len(),
    ensures
        start <= r <= len,
        cs@.take(r as int) == settled(cs@.take(len as int), start as int),
{
    let mut n: usize = len;
    loop
        invariant
            start <= n <= len <= cs@.len(),
            settled(cs@.take(len as int), start as int) == settled(
                cs@.take(n as int),
                start as int,
            ),
        ensures
            start <= n <= len,
            cs@.take(n as int) == settled(cs@.take(len as int), start as int),
        decreases n,
    {
        if n <= start {
            break;
        }
        let from = find_last_start(cs, n, start);
        let ghost path = cs@.take(n as int);
        let ghost component = last_component(path, start as int);
        proof {
            reveal_strlit(".");
            assert(component =~= path.skip(from as int));
        }
        let idle = n == from || n - from == 1 && cs[from] == '.';
        proof {
            if n - from == 1 && cs@[from as int] == '.' {
                assert(component =~= "."@);
            }
            assert(idle == is_idle(component)) by {
                if is_idle(component) && component.len() > 0 {
                    assert(component[0] == '.');
                    assert(component[0] == cs@[from as int]);
                }
            }
        }
        if !idle {
            break;
        }
        proof {
            lemma_last_start(path, start as int);
            assert(path.take(from as int) =~= cs@.take(from as int));
            if from > start {
                assert(path.take(from - 1) =~= cs@.take(from - 1));
            }
        }
        n = if from > start {
            from - 1
        } else {
            from
        };
    }
    n
}

/// A path with another file name; where the path has no file name, the path
/// inside it.
pub fn with_file_name(path: &str, name: &str) -> (r: String)
    ensures
        r@ == sibling(path@, name@),
{
    let cs = text::chars_of(path);
    let len: usize = cs.len();
    let start: usize = if len > 0 && cs[0] == '/' {
        1
    } else if len > 0 && cs[0] == '.' && (len == 1 || cs[1] == '/') {
        1
    } else {
        0
    };
    proof {
        assert(start == body_start(path@));
        assert(cs@.take(len as int) =~= path@);
    }
    let whole = find_settled(&cs, len, start);
    if whole <= start {
        return join(path, name);
    }
    let from = find_last_start(&cs, whole, start);
    let ghost kept = cs@.take(whole as int);
    let ghost component = last_component(kept, start as int);
    let up = whole - from == 2 && cs[from] == '.' && cs[from + 1] == '.';
    proof {
        reveal_strlit("..");
        assert(component =~= kept.skip(from as int));
        if up {
            assert(component =~= ".."@);
        } else if component == ".."@ {
            assert(component.len() == whole - from);
            assert(component[0] == cs@[from as int]);
            assert(component[1] == cs@[from + 1]);
        }
    }
    if up {
        return join(path, name);
    }
    let end: usize = if from > start {
        from - 1
    } else {
        from
    };
    proof {
        assert(kept.take(end as int) =~= cs@.take(end as int));
    }
    let parent = find_settled(&cs, end, start);
    let directory = text::take_chars(&cs, parent);
    join(directory.as_str(), name)
}

/// Where the configuration of the command line program is.
pub open spec fn config_path(home: Seq<char>) -> Seq<char> {
    inside(inside(home, ".memoria"@), "config.json"@)
}

/// Where the configuration of the command line program is.
pub fn config_file_path(home: &str) -> (r: String)
    ensures
        r@ == config_path(home@),
{
    join(join(home, ".memoria").as_str(), "config.json")
}

/// A text that may be there, as a value.
pub open spec fn given(s: Option<&str>) -> Option<Seq<char>> {
    match s {
        Some(s) => Some(s@),
        None => None,
    }
}

/// The first of some settings that is there, else a default.
pub open spec fn chosen(
    first: Option<Seq<char>>,
    second: Option<Seq<char>>,
    third: Option<Seq<char>>,
    otherwise: Seq<char>,
) -> Seq<char> {
    match first {
        Some(s) => s,
        None => match second {
            Some(s) => s,
            None => match third {
                Some(s) => s,
                None => otherwise,
            },
        },
    }
}

/// Where the records of the command line program are: where its arguments say,
/// else where its environment does, else where its configuration does, else in
/// the home directory.
pub fn resolve_store_path(
    cli_override: Option<&str>,
    env_override: Option<&str>,
    file_config: Option<&str>,
    home: &str,
) -> (r: String)
    ensures
        r@ == chosen(
            given(cli_override),
            given(env_override),
            given(file_config),
            inside(inside(home@, ".memoria"@), "store.json"@),
        ),
{
    match cli_override {
        Some(path) => {
            return path.to_owned();
        },
        None => {},
    }
    match env_override {
        Some(path) => {
            return path.to_owned();
        },
        None => {},
    }
    match file_config {
        Some(path) => {
            return path.to_owned();
        },
        None => {},
    }
    join(join(home, ".memoria").as_str(), "store.json")
}

/// Where the histories are: beside the records.
pub fn resolve_history_path(store_path: &str) -> (r: String)
    ensures
        r@ == sibling(store_path@, "history.json"@),
{
    with_file_name(store_path, "history.json")
}

/// Where the records of the tool server are: where its environment says, else
/// in the home directory.
pub fn resolve_server_store_path(env_override: Option<&str>, home: &str) -> (r: String)
    ensures
        r@ == chosen(
            given(env_override),
            None,
            None,
            inside(inside(home@, ".memoria"@), "mcp-store.json"@),
        ),
{
    match env_override {
        Some(path) => path.to_owned(),
        None => join(join(home, ".memoria").as_str(), "mcp-store.json"),
    }
}

/// Where the database of the tool server is: where its environment says, else
/// in the home directory.
pub fn resolve_sqlite_path(env_override: Option<&str>, home: &str) -> (r: String)
    ensures
        r@ == chosen(
            given(env_override),
            None,
            None,
            inside(inside(home@, ".memoria"@), "mcp-store.db"@),
        ),
{
    match env_override {
        Some(path) => path.to_owned(),
        None => join(join(home, ".memoria").as_str(), "mcp-store.db"),
    }
}

/// The histories are in the directory of the records: a file in a directory has
/// its sibling there.
pub proof fn law_siblings_share_a_directory(
    directory: Seq<char>,
    file: Seq<char>,
    name: Seq<char>,
)
    requires
        directory.len() > 1,
        directory.last() != '/',
        !is_idle(last_component(directory, body_start(directory))),
        file.len() > 0,
        !is_idle(file),
        file != ".."@,
        forall|i: int| 0 <= i < file.len() ==> file[i] != '/',
    ensures
        sibling(inside(directory, file), name) == inside(directory, name),
{
    reveal_strlit("/");
    let path = inside(directory, file);
    let start = body_start(path);
    assert(path == directory + "/"@ + file);
    assert(path[0] == directory[0]);
    assert(path[1] == directory[1]);
    assert(start == body_start(directory));
    lemma_last_start(path, start);
    let from = last_start(path, start);
    assert(path[directory.len() as int] == '/');
    assert(from == directory.len() + 1) by {
        if from > directory.len() + 1 {
            assert(path[from - 1] == file[from - 1 - (directory.len() + 1)]);
        }
        if from <= directory.len() {
            assert(path[directory.len() as int] != '/');
        }
    }
    assert(last_component(path, start) =~= file);
    assert(path.take(from - 1) =~= directory);
}

} // verus!
