//! Where files are.

use crate::paths;
use vstd::prelude::*;

verus! {

/// A path inside a directory is the directory, a slash, and the name; a slash that
/// is there is not written twice, and the empty directory has none.
pub proof fn law_inside(directory: Seq<char>, name: Seq<char>)
    ensures
        directory.len() > 0 && directory.last() != '/' ==> paths::inside(directory, name)
            == directory.push('/') + name,
        paths::inside(directory.push('/'), name) == directory.push('/') + name,
        paths::inside(Seq::empty(), name) == name,
{
    reveal_strlit("/");
    assert("/"@ =~= seq!['/']);
    assert(directory + "/"@ + name =~= directory.push('/') + name);
    assert(Seq::<char>::empty() + name =~= name);
}

/// Of some settings the first that is there counts, and a default where none is.
pub proof fn law_chosen(
    first: Seq<char>,
    second: Option<Seq<char>>,
    third: Option<Seq<char>>,
    otherwise: Seq<char>,
)
    ensures
        paths::chosen(Some(first), second, third, otherwise) == first,
        second is Some ==> paths::chosen(None, second, third, otherwise) == second->0,
        third is Some ==> paths::chosen(None, None, third, otherwise) == third->0,
        paths::chosen(None, None, None, otherwise) == otherwise,
{
}

/// A setting that is given is its text.
pub proof fn law_given(s: &str)
    ensures
        paths::given(Some(s)) == Some(s@),
        paths::given(None) is None,
{
}

/// The configuration is in a directory of its own in the home directory.
pub proof fn law_config_path(home: Seq<char>)
    requires
        home.len() > 0,
        home.last() != '/',
    ensures
        paths::config_path(home) == home + "/.memoria/config.json"@,
{
    reveal_strlit("/");
    reveal_strlit(".memoria");
    reveal_strlit("config.json");
    reveal_strlit("/.memoria/config.json");
    assert((home + "/"@ + ".memoria"@).last() == 'a');
    assert(paths::config_path(home) =~= home + "/.memoria/config.json"@);
}

/// The sibling of a file without a directory is the name alone.
pub proof fn law_sibling_of_a_name(file: Seq<char>, name: Seq<char>)
    requires
        file.len() > 0,
        file != "."@,
        file != ".."@,
        forall|i: int| 0 <= i < file.len() ==> file[i] != '/',
    ensures
        paths::sibling(file, name) == name,
{
    reveal_strlit(".");
    assert("."@ =~= seq!['.']);
    if file.len() == 1 && file[0] == '.' {
        assert(file =~= "."@);
    }
    let start = paths::body_start(file);
    assert(start == 0);
    super::lemma_last_start(file, 0);
    let from = paths::last_start(file, 0);
    assert(from == 0);
    assert(paths::last_component(file, 0) =~= file);
    assert(paths::without_last(file, 0) =~= Seq::empty());
    assert(Seq::<char>::empty() + name =~= name);
}

/// The sibling of a file in the root is in the root.
pub proof fn law_sibling_in_the_root(file: Seq<char>, name: Seq<char>)
    requires
        file.len() > 0,
        file != "."@,
        file != ".."@,
        forall|i: int| 0 <= i < file.len() ==> file[i] != '/',
    ensures
        paths::sibling("/"@ + file, name) == "/"@ + name,
{
    reveal_strlit("/");
    assert("/"@ =~= seq!['/']);
    let path = "/"@ + file;
    assert(path[0] == '/');
    let start = paths::body_start(path);
    assert(start == 1);
    super::lemma_last_start(path, 1);
    let from = paths::last_start(path, 1);
    if from > 1 {
        assert(path[from - 1] == file[from - 2]);
    }
    assert(paths::last_component(path, 1) =~= file);
    assert(paths::settled(path, 1) == path);
    assert(paths::without_last(path, 1) =~= "/"@);
    assert(paths::settled("/"@, 1) == "/"@);
}

/// A slash at the end of a path does not change the sibling.
pub proof fn law_sibling_past_a_slash(path: Seq<char>, name: Seq<char>)
    requires
        path.len() > 0,
        path.last() != '/',
    ensures
        paths::sibling(path.push('/'), name) == paths::sibling(path, name),
{
    let longer = path.push('/');
    let start = paths::body_start(path);
    assert(longer[0] == path[0]);
    if path.len() > 1 {
        assert(longer[1] == path[1]);
    }
    assert(paths::body_start(longer) == start);
    assert(paths::last_start(longer, start) == longer.len());
    assert(paths::last_component(longer, start) =~= Seq::empty());
    assert(longer.take(longer.len() - 1) =~= path);
    assert(paths::without_last(longer, start) == path);
    assert(paths::settled(longer, start) == paths::settled(path, start));
    reveal_strlit("/");
    assert("/"@ =~= seq!['/']);
    assert(longer + name =~= path + "/"@ + name);
}

/// What goes up a directory has its sibling inside it.
pub proof fn law_sibling_of_the_parent(name: Seq<char>)
    ensures
        paths::sibling(".."@, name) == "../"@ + name,
{
    reveal_strlit("..");
    reveal_strlit("../");
    reveal_strlit("/");
    reveal_strlit(".");
    let path = ".."@;
    assert(paths::body_start(path) == 0);
    super::lemma_last_start(path, 0);
    assert(paths::last_start(path, 0) == 0);
    assert(paths::last_component(path, 0) =~= path);
    assert(path != "."@) by {
        assert(path.len() != "."@.len());
    }
    assert(paths::settled(path, 0) == path);
    assert(path + "/"@ + name =~= "../"@ + name);
}

} // verus!
