//! Which scene stands in for an application that has not shown a window, and
//! where it is.

use crate::text::{chars, find, first_at, first_at_is_first};
use vstd::prelude::*;
use vstd::string::*;

verus! {

/// Where a scene comes from.
pub enum Source {
    /// One that ships with the compositor, by its name.
    Shipped(String),
    /// A file, by its path.
    Path(String),
    /// One by its name: the user's own, if there is a file for it, or else the
    /// one that ships.
    Named(String),
}

/// Whether a text is the path of a file rather than a name: it has a slash in
/// it, or it ends in `.qml`.
pub open spec fn is_path(name: Seq<char>) -> bool {
    first_at(name, '/') is Some || ends_in(name, ".qml"@)
}

/// Whether a text ends in another.
pub open spec fn ends_in(text: Seq<char>, end: Seq<char>) -> bool {
    text.len() >= end.len() && text.skip(text.len() - end.len()) == end
}

/// Whether a text begins with another.
pub open spec fn begins_with(text: Seq<char>, start: Seq<char>) -> bool {
    text.len() >= start.len() && text.take(start.len() as int) == start
}

/// A path with the home directory in place of a `~` in front of it.
pub open spec fn expanded(path: Seq<char>, home: Option<Seq<char>>) -> Seq<char> {
    match home {
        Some(home) if begins_with(path, "~/"@) => home + "/"@ + path.skip(2),
        _ => path,
    }
}

/// A path and what is under it: what is absolute stays so, and there is a
/// slash between the two unless there is one already.
pub open spec fn joined(base: Seq<char>, part: Seq<char>) -> Seq<char> {
    if part.len() > 0 && part[0] == '/' {
        part
    } else if base.len() == 0 || base.last() == '/' {
        base + part
    } else {
        base + "/"@ + part
    }
}

/// The file of a scene by its name, in a directory of scenes.
pub open spec fn scene_in(directory: Seq<char>, name: Seq<char>) -> Seq<char> {
    joined(joined(directory, "loading"@), name + ".qml"@)
}

/// The characters of some text, from one place on.
fn tail(text: &str, from: usize) -> (r: String)
    requires
        from <= text@.len(),
    ensures
        r@ == text@.skip(from as int),
{
    let len: usize = text.unicode_len();
    let r = text.substring_char(from, len).to_owned();
    assert(text@.skip(from as int) =~= text@.subrange(from as int, len as int));
    r
}

/// A path and what is under it.
pub fn join(base: &str, part: &str) -> (path: String)
    ensures
        path@ == joined(base@, part@),
{
    let base_len: usize = base.unicode_len();
    if part.unicode_len() > 0 && part.get_char(0) == '/' {
        return part.to_owned();
    }
    let mut path = base.to_owned();
    if base_len > 0 && base.get_char(base_len - 1) != '/' {
        path.append("/");
    }
    path.append(part);
    path
}

/// The file of a scene by its name, in a directory of scenes.
pub fn file_in(directory: &str, name: &str) -> (path: String)
    ensures
        path@ == scene_in(directory@, name@),
{
    let mut file = name.to_owned();
    file.append(".qml");
    let directory = join(directory, "loading");
    join(directory.as_str(), file.as_str())
}

/// The file of a scene that ships with the compositor.
pub fn shipped(assets: &str, name: &str) -> (path: String)
    ensures
        path@ == scene_in(assets@, name@),
{
    file_in(assets, name)
}

/// A path with the home directory in place of a `~` in front of it.
pub fn expand(path: &str, home: Option<&str>) -> (r: String)
    ensures
        r@ == expanded(
            path@,
            match home {
                Some(home) => Some(home@),
                None => None,
            },
        ),
{
    proof {
        reveal_strlit("~/");
    }
    let len: usize = path.unicode_len();
    if len < 2 || path.get_char(0) != '~' || path.get_char(1) != '/' {
        assert(!begins_with(path@, "~/"@)) by {
            if begins_with(path@, "~/"@) {
                assert(path@.take(2)[0] == path@[0]);
                assert(path@.take(2)[1] == path@[1]);
            }
        }
        return path.to_owned();
    }
    assert(path@.take(2) =~= "~/"@);
    match home {
        None => path.to_owned(),
        Some(home) => {
            let mut r = home.to_owned();
            r.append("/");
            let rest = tail(path, 2);
            r.append(rest.as_str());
            r
        },
    }
}

/// Whether a text is the path of a file rather than a name.
fn is_a_path(name: &str) -> (r: bool)
    ensures
        r == is_path(name@),
{
    let letters = chars(name);
    if find(&letters, '/').is_some() {
        return true;
    }
    proof {
        reveal_strlit(".qml");
    }
    let len: usize = letters.len();
    if len < 4 {
        return false;
    }
    let r = letters[len - 4] == '.' && letters[len - 3] == 'q' && letters[len - 2] == 'm'
        && letters[len - 1] == 'l';
    proof {
        let end = name@.skip(len - 4);
        assert(end[0] == name@[len - 4] && end[1] == name@[len - 3] && end[2] == name@[len - 2]
            && end[3] == name@[len - 1]);
        if r {
            assert(end =~= ".qml"@);
        }
    }
    r
}

/// What stands for the scene that was asked for, if one was.
pub open spec fn source_of(name: Option<Seq<char>>, home: Option<Seq<char>>, source: Source) -> bool {
    match name {
        None => source matches Source::Shipped(shipped) && shipped@ == "window"@,
        Some(name) => if is_path(name) {
            source matches Source::Path(path) && path@ == expanded(name, home)
        } else {
            source matches Source::Named(named) && named@ == name
        },
    }
}

/// Which scene stands in for an application: the one the environment names, or
/// else the one that was chosen, or else the one that ships. A path is taken as
/// one, with `~` for the home directory.
pub fn loading_source(variable: Option<&str>, chosen: Option<&str>, home: Option<&str>) -> (source:
    Source)
    ensures
        source_of(
            match (variable, chosen) {
                (Some(name), _) => Some(name@),
                (None, Some(name)) => Some(name@),
                (None, None) => None,
            },
            match home {
                Some(home) => Some(home@),
                None => None,
            },
            source,
        ),
{
    let name = match variable {
        Some(name) => name,
        None => match chosen {
            Some(name) => name,
            None => {
                return Source::Shipped("window".to_owned());
            },
        },
    };
    if is_a_path(name) {
        Source::Path(expand(name, home))
    } else {
        Source::Named(name.to_owned())
    }
}

/// The file of the scene, once it is known whether the user has one of that
/// name: `user` is the user's directory of scenes and `theirs` whether the
/// file is in it.
pub fn scene_file(source: Source, user: Option<&str>, theirs: bool, assets: &str) -> (path: String)
    ensures
        path@ == match source {
            Source::Path(path) => path@,
            Source::Shipped(name) => scene_in(assets@, name@),
            Source::Named(name) => match user {
                Some(user) if theirs => scene_in(user@, name@),
                _ => scene_in(assets@, name@),
            },
        },
{
    match source {
        Source::Path(path) => path,
        Source::Shipped(name) => shipped(assets, name.as_str()),
        Source::Named(name) => match user {
            Some(user) => if theirs {
                file_in(user, name.as_str())
            } else {
                shipped(assets, name.as_str())
            },
            None => shipped(assets, name.as_str()),
        },
    }
}

/// A text ends in another where something in front of that other is all of it,
/// and begins with another where something behind that other is.
pub proof fn the_ends_of_a_text(front: Seq<char>, back: Seq<char>)
    ensures
        ends_in(front + back, back),
        begins_with(front + back, front),
        ends_in(front, back) ==> front.take(front.len() - back.len()) + back == front,
        begins_with(back, front) ==> front + back.skip(front.len() as int) == back,
        front.len() < back.len() ==> !ends_in(front, back),
        back.len() < front.len() ==> !begins_with(back, front),
{
    assert((front + back).skip(front.len() as int) =~= back);
    assert((front + back).take(front.len() as int) =~= front);
    if ends_in(front, back) {
        assert(front.take(front.len() - back.len()) + front.skip(front.len() - back.len())
            =~= front);
    }
    if begins_with(back, front) {
        assert(back.take(front.len() as int) + back.skip(front.len() as int) =~= back);
    }
}

/// A text is a path exactly where there is a slash somewhere in it or its last
/// four letters are `.qml`.
pub proof fn what_is_a_path(name: Seq<char>)
    ensures
        is_path(name) <==> (exists|i: int| 0 <= i < name.len() && name[i] == '/') || {
            &&& name.len() >= 4
            &&& name[name.len() - 4] == '.'
            &&& name[name.len() - 3] == 'q'
            &&& name[name.len() - 2] == 'm'
            &&& name[name.len() - 1] == 'l'
        },
{
    reveal_strlit(".qml");
    first_at_is_first(name, '/');
    if name.len() >= 4 {
        let end = name.skip(name.len() - 4);
        assert(end[0] == name[name.len() - 4] && end[1] == name[name.len() - 3] && end[2]
            == name[name.len() - 2] && end[3] == name[name.len() - 1]);
        if end[0] == '.' && end[1] == 'q' && end[2] == 'm' && end[3] == 'l' {
            assert(end =~= ".qml"@);
        }
    }
}

/// The home directory takes the place of a `~` that stands before a slash at the
/// front of a path, where there is one; any other path is as it was.
pub proof fn the_home_directory_goes_in_front(
    rest: Seq<char>,
    path: Seq<char>,
    home: Seq<char>,
)
    ensures
        expanded(seq!['~', '/'] + rest, Some(home)) == home + seq!['/'] + rest,
        expanded(path, None) == path,
        path.len() < 2 || path[0] != '~' || path[1] != '/' ==> expanded(path, Some(home)) == path,
{
    reveal_strlit("~/");
    reveal_strlit("/");
    let whole = seq!['~', '/'] + rest;
    assert(whole.take(2) =~= "~/"@);
    assert(whole.skip(2) =~= rest);
    assert("/"@ =~= seq!['/']);
    if begins_with(path, "~/"@) {
        assert(path.take(2)[0] == path[0]);
        assert(path.take(2)[1] == path[1]);
    }
}

/// What is under a path follows it after one slash, the one it ends in or one
/// that is put there; what is absolute is under nothing, and what is under
/// nothing stands by itself.
pub proof fn a_slash_goes_between(base: Seq<char>, part: Seq<char>)
    ensures
        part.len() > 0 && part[0] == '/' ==> joined(base, part) == part,
        base.len() == 0 ==> joined(base, part) == part,
        base.len() > 0 && base[base.len() - 1] == '/' && !(part.len() > 0 && part[0] == '/')
            ==> joined(base, part) == base + part,
        base.len() > 0 && base[base.len() - 1] != '/' && !(part.len() > 0 && part[0] == '/')
            ==> joined(base, part) == base + seq!['/'] + part,
{
    reveal_strlit("/");
    assert("/"@ =~= seq!['/']);
    assert(Seq::<char>::empty() + part =~= part);
    if base.len() == 0 {
        assert(base + part =~= part);
    }
}

/// The file of a scene is in `loading` under the directory of scenes, by the
/// scene's name and `.qml`.
pub proof fn where_a_scene_is(directory: Seq<char>, name: Seq<char>)
    requires
        directory.len() > 0,
        directory[directory.len() - 1] != '/',
        name.len() > 0,
        name[0] != '/',
    ensures
        scene_in(directory, name) == directory + "/loading/"@ + name + ".qml"@,
        scene_in(directory + seq!['/'], name) == scene_in(directory, name),
{
    reveal_strlit("/loading/");
    reveal_strlit("loading");
    reveal_strlit("/");
    let file = name + ".qml"@;
    assert(file[0] == name[0]);
    let inner = directory + "/"@ + "loading"@;
    assert(joined(directory, "loading"@) == inner);
    assert(inner.last() == 'g');
    assert(directory + "/loading/"@ + name + ".qml"@ =~= inner + "/"@ + file);
    let slashed = directory + seq!['/'];
    assert(slashed.last() == '/');
    assert(slashed + "loading"@ =~= inner);
}

/// Which scene it is by what was asked for: the one called `window` where
/// nothing was, the file where a path was, and whoever has one of that name
/// where a name was.
pub proof fn what_a_scene_comes_from(name: Seq<char>, home: Option<Seq<char>>, source: Source)
    ensures
        source_of(None, home, source) <==> (source matches Source::Shipped(shipped) && shipped@
            == seq!['w', 'i', 'n', 'd', 'o', 'w']),
        is_path(name) ==> (source_of(Some(name), home, source) <==> (
        source matches Source::Path(path) && path@ == expanded(name, home))),
        !is_path(name) ==> (source_of(Some(name), home, source) <==> (
        source matches Source::Named(named) && named@ == name)),
{
    reveal_strlit("window");
    assert("window"@ =~= seq!['w', 'i', 'n', 'd', 'o', 'w']);
}

} // verus!
