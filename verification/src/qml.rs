//! The compositor's side of the Qt host: what is asked of a scene, and what to
//! make of what comes back.

use crate::geometry::Size;
use crate::loading::{join, joined};
use crate::text::{chars, find, first_at, first_at_is_first};
use crate::time::Nanos;
use vstd::prelude::*;
use vstd::string::*;

verus! {

/// What the host answers a render with where nothing in the scene had changed.
pub const UNCHANGED: i32 = 2;

/// The bits of the double 1.0.
pub const ONE: u64 = 0x3ff0_0000_0000_0000;

/// The bits of the largest double there is, which is infinity.
pub const INFINITE: u64 = 0x7ff0_0000_0000_0000;

/// Whether text can be handed to the host, which takes it up to the first NUL.
pub open spec fn is_whole(text: Seq<char>) -> bool {
    first_at(text, '\0') is None
}

/// Whether text can be handed to the host.
pub fn whole(text: &str) -> (r: bool)
    ensures
        r == is_whole(text@),
{
    let letters = chars(text);
    find(&letters, '\0').is_none()
}

/// A scene as the compositor knows it: the size it was last told, in device
/// pixels, and the scale, as the bits of a double.
#[derive(Clone, Copy, Debug, PartialEq, Eq, Structural)]
pub struct Scene {
    pub size: Size,
    pub scale: u64,
}

/// Why a scene was not loaded.
pub enum Unloaded {
    /// Its path has a NUL in it.
    Path,
    /// Its properties have a NUL in them.
    Properties,
    /// The host would not, and said why or did not.
    Refused(String),
}

/// A scale that can be drawn at: the one that was asked for, where it is above
/// nothing, and one where it is not.
pub open spec fn sane_scale(scale: u64) -> u64 {
    if 0 < scale <= INFINITE {
        scale
    } else {
        ONE
    }
}

/// A scale that can be drawn at.
pub fn scale_or_one(scale: u64) -> (r: u64)
    ensures
        r == sane_scale(scale),
{
    if 0 < scale && scale <= INFINITE {
        scale
    } else {
        ONE
    }
}

impl Scene {
    /// Whether a scene can be asked for: nothing the host is handed has a NUL
    /// in it. The path is looked at first.
    pub fn asked(path: &str, initial: Option<&str>) -> (r: Result<(), Unloaded>)
        ensures
            match r {
                Ok(_) => is_whole(path@) && (initial matches Some(json) ==> is_whole(json@)),
                Err(Unloaded::Path) => !is_whole(path@),
                Err(Unloaded::Properties) => is_whole(path@) && (initial matches Some(json)
                    && !is_whole(json@)),
                Err(Unloaded::Refused(_)) => false,
            },
    {
        if !whole(path) {
            return Err(Unloaded::Path);
        }
        if let Some(json) = initial {
            if !whole(json) {
                return Err(Unloaded::Properties);
            }
        }
        Ok(())
    }

    /// The scene the host made, or why it made none. A new scene is at its own
    /// size.
    pub fn with_properties(width: i32, height: i32, made: bool, reason: Option<String>) -> (r:
        Result<Scene, Unloaded>)
        ensures
            match r {
                Ok(scene) => made && scene == (Scene { size: Size { w: width, h: height }, scale: ONE }),
                Err(Unloaded::Refused(why)) => !made && why@ == match reason {
                    Some(reason) => reason@,
                    None => "unknown"@,
                },
                Err(_) => false,
            },
    {
        if made {
            Ok(Scene { size: Size { w: width, h: height }, scale: ONE })
        } else {
            match reason {
                Some(reason) => Err(Unloaded::Refused(reason)),
                None => Err(Unloaded::Refused("unknown".to_owned())),
            }
        }
    }

    /// Tell a scene its size and scale. `near` says whether the scale, made
    /// sane, is the one it has, to the last place of a double. Says whether the
    /// host has to be told: a scene of no size is not one, and one that has not
    /// changed is not news.
    pub fn resize(&mut self, width: i32, height: i32, scale: u64, near: bool) -> (tell: bool)
        ensures
            tell == (width > 0 && height > 0 && !(old(self).size == (Size { w: width, h: height })
                && near)),
            *final(self) == if tell {
                Scene { size: Size { w: width, h: height }, scale: sane_scale(scale) }
            } else {
                *old(self)
            },
    {
        let scale: u64 = scale_or_one(scale);
        if width <= 0 || height <= 0 {
            return false;
        }
        if self.size.w == width && self.size.h == height && near {
            return false;
        }
        self.size = Size { w: width, h: height };
        self.scale = scale;
        true
    }
}

/// The pixels of a scene: whether they are new, how long a row is, and how
/// many bytes there are of them.
#[derive(Clone, Copy, Debug, PartialEq, Eq, Structural)]
pub struct Rendered {
    pub changed: bool,
    pub stride: u64,
    pub bytes: u64,
}

/// Why there are no pixels.
#[derive(Clone, Copy, Debug, PartialEq, Eq, Structural)]
pub enum Unrendered {
    /// The scene failed to render.
    Failed,
    /// It rendered and there is nothing of it.
    Blank,
}

/// What a render came to: what the host answered, whether there are pixels,
/// how long a row of them is and how many rows there are.
pub fn render(status: i32, pixels: bool, stride: i32, rows: i32) -> (r: Result<Rendered, Unrendered>)
    ensures
        r == if status == 0 {
            Err(Unrendered::Failed)
        } else if !pixels || stride <= 0 {
            Err(Unrendered::Blank)
        } else {
            Ok(
                Rendered {
                    changed: status != UNCHANGED,
                    stride: stride as u64,
                    bytes: (stride * if rows > 0 {
                        rows as int
                    } else {
                        0
                    }) as u64,
                },
            )
        },
{
    if status == 0 {
        return Err(Unrendered::Failed);
    }
    if !pixels || stride <= 0 {
        return Err(Unrendered::Blank);
    }
    let rows: u64 = if rows > 0 {
        rows as u64
    } else {
        0
    };
    assert(0 <= stride * rows <= 0x7fff_ffff * 0x7fff_ffff) by (nonlinear_arith)
        requires
            0 <= stride <= 0x7fff_ffff,
            0 <= rows <= 0x7fff_ffff,
    ;
    Ok(Rendered { changed: status != UNCHANGED, stride: stride as u64, bytes: stride as u64 * rows })
}

/// The time since the compositor started as the host counts it: in whole
/// milliseconds.
pub fn tick(elapsed: Nanos) -> (millis: i64)
    ensures
        millis == if elapsed / 1_000_000 <= i64::MAX {
            (elapsed / 1_000_000) as int
        } else {
            i64::MAX as int
        },
{
    let millis: u128 = elapsed / 1_000_000;
    if millis <= i64::MAX as u128 {
        millis as i64
    } else {
        i64::MAX
    }
}

/// What the host is told of a pointer: that it is pressed, that it is let go,
/// or that it only moved.
pub fn pointer(pressed: Option<bool>) -> (code: i32)
    ensures
        code == match pressed {
            Some(true) => 1int,
            Some(false) => 0,
            None => -1,
        },
{
    match pressed {
        Some(true) => 1,
        Some(false) => 0,
        None => -1,
    }
}

/// Where the host looks for what scenes import: where it is told to, or else
/// in the user's directory, if there is one, then in the compositor's own.
pub open spec fn imports(
    told: Option<Seq<char>>,
    user: Option<Seq<char>>,
    own: Seq<char>,
    shim: Seq<char>,
) -> Seq<char> {
    match told {
        Some(path) => path,
        None => match user {
            Some(user) => user + ":"@ + own + ":"@ + shim,
            None => own + ":"@ + shim,
        },
    }
}

/// Where the host looks for what scenes import.
pub fn import_path(told: Option<String>, user: Option<&str>, own: &str, shim: &str) -> (path:
    String)
    ensures
        path@ == imports(
            match told {
                Some(path) => Some(path@),
                None => None,
            },
            match user {
                Some(user) => Some(user@),
                None => None,
            },
            own@,
            shim@,
        ),
{
    if let Some(path) = told {
        return path;
    }
    let mut path = match user {
        Some(user) => {
            let mut path = user.to_owned();
            path.append(":");
            path.append(own);
            path
        },
        None => own.to_owned(),
    };
    path.append(":");
    path.append(shim);
    path
}

/// The user's directory of scenes: under where the desktop keeps its
/// configuration, which is `.config` at home unless it says otherwise.
pub open spec fn user_directory(config: Option<Seq<char>>, home: Option<Seq<char>>) -> Option<
    Seq<char>,
> {
    match (config, home) {
        (Some(config), _) => Some(joined(joined(config, "solium"@), "qml"@)),
        (None, Some(home)) => Some(
            joined(joined(joined(home, ".config"@), "solium"@), "qml"@),
        ),
        (None, None) => None,
    }
}

/// The user's directory of scenes, whether or not it is there.
pub fn user_qml_dir(config: Option<&str>, home: Option<&str>) -> (path: Option<String>)
    ensures
        match (
            path,
            user_directory(
                match config {
                    Some(config) => Some(config@),
                    None => None,
                },
                match home {
                    Some(home) => Some(home@),
                    None => None,
                },
            ),
        ) {
            (Some(path), Some(directory)) => path@ == directory,
            (None, None) => true,
            _ => false,
        },
{
    let config = match config {
        Some(config) => config.to_owned(),
        None => match home {
            Some(home) => join(home, ".config"),
            None => {
                return None;
            },
        },
    };
    let ours = join(config.as_str(), "solium");
    Some(join(ours.as_str(), "qml"))
}

/// Text can be handed over whole exactly where no NUL is in it.
pub proof fn what_is_whole_has_no_nul(text: Seq<char>)
    ensures
        is_whole(text) <==> !exists|i: int| 0 <= i < text.len() && text[i] == '\0',
{
    first_at_is_first(text, '\0');
}

/// Every scale above nothing is drawn at as it is, infinity with them; nothing,
/// what is below it and what is not a number are drawn at one.
pub proof fn what_scales_are_sane(scale: u64)
    ensures
        scale == 0 ==> sane_scale(scale) == 1023 * 0x10_0000_0000_0000,
        0 < scale <= 2047 * 0x10_0000_0000_0000 ==> sane_scale(scale) == scale,
        scale > 2047 * 0x10_0000_0000_0000 ==> sane_scale(scale) == 1023 * 0x10_0000_0000_0000,
        sane_scale(sane_scale(scale)) == sane_scale(scale),
        ONE == 1023 * 0x10_0000_0000_0000,
        UNCHANGED == 2,
{
}

/// Where the host looks is where it is told to, and otherwise three places with
/// a colon between them, or two where the user has none, theirs before the
/// compositor's own.
pub proof fn where_imports_are_looked_for(
    told: Seq<char>,
    user: Option<Seq<char>>,
    own: Seq<char>,
    shim: Seq<char>,
)
    ensures
        imports(Some(told), user, own, shim) == told,
        imports(None, None, own, shim) == own + seq![':'] + shim,
        user matches Some(theirs) ==> imports(None, user, own, shim) == theirs + seq![':'] + own
            + seq![':'] + shim,
{
    reveal_strlit(":");
    assert(":"@ =~= seq![':']);
}

/// The user's scenes are under `solium/qml` where the desktop keeps its
/// configuration, and under `.config` at home where it does not say.
pub proof fn where_the_users_scenes_are(base: Seq<char>, home: Option<Seq<char>>)
    requires
        base.len() > 0,
        base[base.len() - 1] != '/',
    ensures
        user_directory(Some(base), home) == Some(base + "/solium/qml"@),
        user_directory(None, Some(base)) == Some(base + "/.config/solium/qml"@),
        user_directory(None, None) is None,
{
    reveal_strlit("/solium/qml");
    reveal_strlit("/.config/solium/qml");
    reveal_strlit("solium");
    reveal_strlit("qml");
    reveal_strlit(".config");
    reveal_strlit("/");
    let ours = base + "/"@ + "solium"@;
    assert(joined(base, "solium"@) == ours);
    assert(ours.last() == 'm');
    assert(ours + "/"@ + "qml"@ =~= base + "/solium/qml"@);
    let config = base + "/"@ + ".config"@;
    assert(joined(base, ".config"@) == config);
    assert(config.last() == 'g');
    let theirs = config + "/"@ + "solium"@;
    assert(joined(config, "solium"@) == theirs);
    assert(theirs.last() == 'm');
    assert(theirs + "/"@ + "qml"@ =~= base + "/.config/solium/qml"@);
}

} // verus!
