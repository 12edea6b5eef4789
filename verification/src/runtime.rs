//! Where a server keeps its files.

use crate::text;
use vstd::prelude::*;

verus! {

/// A path with a name added to it, as Unix paths are joined: an absolute
/// name replaces the path, and a slash goes between them unless the path is
/// empty or ends with one.
pub open spec fn joined_path(dir: Seq<char>, file: Seq<char>) -> Seq<char> {
    if file.len() > 0 && file[0] == '/' {
        file
    } else if dir.len() == 0 || dir.last() == '/' {
        dir + file
    } else {
        dir.push('/') + file
    }
}

/// Joins a path and a name.
pub fn join_path(dir: &str, file: &str) -> (path: String)
    ensures
        path@ == joined_path(dir@, file@),
{
    let name = text::characters(file);
    if name.len() > 0 && name[0] == '/' {
        return file.to_owned();
    }
    let parent = text::characters(dir);
    let mut path = dir.to_owned();
    if parent.len() > 0 && parent[parent.len() - 1] != '/' {
        path.push('/');
    }
    path.append(file);
    path
}

/// The runtime directory: `$XDG_RUNTIME_DIR/rmux` or `/tmp/rmux-$UID`.
pub open spec fn runtime_dir_path(xdg: Option<Seq<char>>, uid: u32) -> Seq<char> {
    match xdg {
        Some(dir) => joined_path(dir, "rmux"@),
        None => "/tmp/rmux-"@ + text::decimal(uid as nat),
    }
}

/// Returns the runtime directory for rmux: `$XDG_RUNTIME_DIR/rmux` or `/tmp/rmux-$UID`.
///
/// Takes the value of the variable, if it is set, and the user's id.
pub fn runtime_dir(xdg: Option<&str>, uid: u32) -> (dir: String)
    ensures
        dir@ == runtime_dir_path(
            match xdg {
                Some(x) => Some(x@),
                None => None,
            },
            uid,
        ),
{
    match xdg {
        Some(dir) => join_path(dir, "rmux"),
        None => {
            let mut dir = "/tmp/rmux-".to_owned();
            let id = text::write_decimal(uid);
            dir.append(id.as_str());
            dir
        },
    }
}

/// The path of a server's file of some kind.
pub open spec fn server_path(dir: Seq<char>, name: Seq<char>, suffix: Seq<char>) -> Seq<char> {
    joined_path(dir, name + suffix)
}

/// The path of a server's file of some kind.
fn path_with_suffix(dir: &str, name: &str, suffix: &str) -> (path: String)
    ensures
        path@ == server_path(dir@, name@, suffix@),
{
    let mut file = name.to_owned();
    file.append(suffix);
    join_path(dir, file.as_str())
}

/// Path to the Unix socket for a given server name.
pub fn socket_path(dir: &str, name: &str) -> (path: String)
    ensures
        path@ == server_path(dir@, name@, ".sock"@),
{
    path_with_suffix(dir, name, ".sock")
}

/// Path to the state file for a given server name.
pub fn state_path(dir: &str, name: &str) -> (path: String)
    ensures
        path@ == server_path(dir@, name@, ".json"@),
{
    path_with_suffix(dir, name, ".json")
}

/// Path to the log file for a given server name.
pub fn log_path(dir: &str, name: &str) -> (path: String)
    ensures
        path@ == server_path(dir@, name@, ".log"@),
{
    path_with_suffix(dir, name, ".log")
}

/// Path to the PTY link for a given server name.
pub fn pty_path(dir: &str, name: &str) -> (path: String)
    ensures
        path@ == server_path(dir@, name@, ".pty"@),
{
    path_with_suffix(dir, name, ".pty")
}

/// A path that starts at the root.
pub open spec fn is_absolute(path: Seq<char>) -> bool {
    path.len() > 0 && path[0] == '/'
}

/// The runtime directory is absolute, unless the variable says otherwise.
pub proof fn runtime_dir_is_absolute(xdg: Option<Seq<char>>, uid: u32)
    requires
        xdg matches Some(dir) ==> is_absolute(dir),
    ensures
        is_absolute(runtime_dir_path(xdg, uid)),
{
    reveal_strlit("rmux");
    reveal_strlit("/tmp/rmux-");
    match xdg {
        Some(dir) => {
            let path = runtime_dir_path(xdg, uid);
            assert(path[0] == dir[0]);
        },
        None => {
            let path = runtime_dir_path(xdg, uid);
            assert(path[0] == "/tmp/rmux-"@[0]);
        },
    }
}

/// No character is a slash.
pub open spec fn slash_free(text: Seq<char>) -> bool {
    forall|i: int| 0 <= i < text.len() ==> #[trigger] text[i] != '/'
}

/// The directory of a path: what stands in front of its last slash.
pub open spec fn parent(path: Seq<char>) -> Seq<char>
    decreases path.len(),
{
    if path.len() == 0 {
        path
    } else if path.last() == '/' {
        path.drop_last()
    } else {
        parent(path.drop_last())
    }
}

proof fn parent_of_joined(dir: Seq<char>, file: Seq<char>)
    requires
        slash_free(file),
    ensures
        parent(dir.push('/') + file) == dir,
    decreases file.len(),
{
    let path = dir.push('/') + file;
    if file.len() == 0 {
        assert(path == dir.push('/'));
        assert(dir.push('/').drop_last() == dir);
    } else {
        let rest = file.drop_last();
        assert forall|i: int| 0 <= i < rest.len() implies #[trigger] rest[i] != '/' by {
            assert(rest[i] == file[i]);
        }
        parent_of_joined(dir, rest);
        assert(path.last() == file[file.len() - 1]);
        assert(path.drop_last() == dir.push('/') + rest);
    }
}

/// The files of a server with a name free of slashes all stand in the
/// directory that they are kept in, whichever kind they are.
pub proof fn server_files_share_their_directory(
    dir: Seq<char>,
    name: Seq<char>,
    suffix: Seq<char>,
)
    requires
        dir.len() > 0,
        dir.last() != '/',
        slash_free(name),
        slash_free(suffix),
    ensures
        parent(server_path(dir, name, suffix)) == dir,
{
    let file = name + suffix;
    assert forall|i: int| 0 <= i < file.len() implies #[trigger] file[i] != '/' by {
        if i < name.len() {
            assert(file[i] == name[i]);
        } else {
            assert(file[i] == suffix[i - name.len()]);
        }
    }
    parent_of_joined(dir, file);
}

/// The path of a file is its directory, a slash and its name, all of both; a
/// slash that is there already is not doubled.
pub proof fn paths_are_directory_and_name(dir: Seq<char>, file: Seq<char>)
    requires
        file.len() == 0 || file[0] != '/',
    ensures
        dir.len() > 0 && dir.last() != '/' ==> joined_path(dir, file) == dir + seq!['/'] + file,
        dir.len() > 0 && dir.last() == '/' ==> joined_path(dir, file) == dir + file,
        dir.len() == 0 ==> joined_path(dir, file) == file,
{
    if dir.len() > 0 && dir.last() != '/' {
        assert(dir.push('/') + file == dir + seq!['/'] + file);
    }
    if dir.len() == 0 {
        assert(dir + file == file);
    }
}

/// An absolute name is a path by itself.
pub proof fn absolute_names_are_paths(dir: Seq<char>, file: Seq<char>)
    requires
        file.len() > 0,
        file[0] == '/',
    ensures
        joined_path(dir, file) == file,
{
}

/// The files of a server in a directory are told apart by their kinds, and
/// those of different servers by their names.
pub proof fn server_paths_differ(
    dir: Seq<char>,
    name: Seq<char>,
    suffix: Seq<char>,
    other_name: Seq<char>,
    other_suffix: Seq<char>,
)
    requires
        dir.len() > 0,
        dir.last() != '/',
        name.len() > 0 && name[0] != '/',
        other_name.len() > 0 && other_name[0] != '/',
        name + suffix != other_name + other_suffix,
    ensures
        server_path(dir, name, suffix) == dir + seq!['/'] + name + suffix,
        server_path(dir, name, suffix) != server_path(dir, other_name, other_suffix),
{
    let a = name + suffix;
    let b = other_name + other_suffix;
    assert(a[0] == name[0]);
    assert(b[0] == other_name[0]);
    paths_are_directory_and_name(dir, a);
    paths_are_directory_and_name(dir, b);
    let head = dir + seq!['/'];
    assert(head + a == dir + seq!['/'] + name + suffix);
    assert((head + a).skip(head.len() as int) == a);
    assert((head + b).skip(head.len() as int) == b);
}

/// The runtime directory is the one of the system with the program's name in
/// it, or one of the user's own.
pub proof fn runtime_dirs(dir: Seq<char>, uid: u32)
    ensures
        dir.len() > 0 && dir.last() != '/' ==> runtime_dir_path(Some(dir), uid) == dir + seq!['/']
            + "rmux"@,
        dir.len() > 0 && dir.last() == '/' ==> runtime_dir_path(Some(dir), uid) == dir + "rmux"@,
        runtime_dir_path(None, uid).take("/tmp/rmux-"@.len() as int) == "/tmp/rmux-"@,
        text::value_of(runtime_dir_path(None, uid).skip("/tmp/rmux-"@.len() as int)) == uid,
{
    reveal_strlit("rmux");
    paths_are_directory_and_name(dir, "rmux"@);
    let head = "/tmp/rmux-"@;
    let id = text::decimal(uid as nat);
    assert((head + id).take(head.len() as int) == head);
    assert((head + id).skip(head.len() as int) == id);
    text::decimals_are_exact(uid as nat);
}

/// A slash at the end of the directory is not doubled in the path of a server's
/// file, and without a directory the path is the name.
pub proof fn server_paths_are_joined(dir: Seq<char>, name: Seq<char>, suffix: Seq<char>)
    requires
        name.len() > 0,
    ensures
        name[0] != '/' && dir.len() > 0 && dir.last() == '/' ==> server_path(dir, name, suffix)
            == dir + name + suffix,
        name[0] == '/' || dir.len() == 0 ==> server_path(dir, name, suffix) == name + suffix,
{
    let file = name + suffix;
    assert(file[0] == name[0]);
    assert(dir + file == dir + name + suffix);
    if dir.len() == 0 {
        assert(dir + file == file);
    }
}

/// Each file of a server has the server's name and the suffix of its kind, in the
/// directory that it is kept in.
pub proof fn files_are_named_after_their_server(dir: &str, name: &str, path: String)
    requires
        dir@.len() > 0,
        dir@.last() != '/',
        name@.len() > 0 && name@[0] != '/',
    ensures
        call_ensures(socket_path, (dir, name), path) ==> path@ == dir@ + seq!['/'] + name@
            + ".sock"@,
        call_ensures(state_path, (dir, name), path) ==> path@ == dir@ + seq!['/'] + name@
            + ".json"@,
        call_ensures(log_path, (dir, name), path) ==> path@ == dir@ + seq!['/'] + name@ + ".log"@,
        call_ensures(pty_path, (dir, name), path) ==> path@ == dir@ + seq!['/'] + name@ + ".pty"@,
{
    server_path_is(dir@, name@, ".sock"@);
    server_path_is(dir@, name@, ".json"@);
    server_path_is(dir@, name@, ".log"@);
    server_path_is(dir@, name@, ".pty"@);
}

proof fn server_path_is(dir: Seq<char>, name: Seq<char>, suffix: Seq<char>)
    requires
        dir.len() > 0,
        dir.last() != '/',
        name.len() > 0 && name[0] != '/',
    ensures
        server_path(dir, name, suffix) == dir + seq!['/'] + name + suffix,
{
    let file = name + suffix;
    assert(file[0] == name[0]);
    paths_are_directory_and_name(dir, file);
    assert(dir + seq!['/'] + file == dir + seq!['/'] + name + suffix);
}

} // verus!
