//! Overlay deployment through a launch wrapper: the mods are stacked over
//! the game's deploy root by bubblewrap for the game process only, so the
//! install on disk stays pristine. This module builds the wrapper command.

use vstd::prelude::*;
use crate::game::{deploy_root_of, DeployTarget, InstalledGame, PrefixUsers};
use crate::paths::{join, path_join};
use crate::text::{chars_of, owned, push_char, push_str, views};

verus! {

/// Working dirs for the writable overlay layer (game writes such as saves and
/// configs land here instead of in the install).
#[derive(Debug, Clone)]
pub struct OverlayDirs {
    pub upper: String,
    pub work: String,
}

impl OverlayDirs {
    /// Default overlay scratch under the game's store dir.
    pub fn under(store_dir: &str) -> (r: OverlayDirs)
        ensures
            r.upper@ == path_join(store_dir@, ".overlay/upper"@),
            r.work@ == path_join(store_dir@, ".overlay/work"@),
    {
        OverlayDirs { upper: join(store_dir, ".overlay/upper"), work: join(store_dir, ".overlay/work") }
    }
}

/// `--overlay-src <dir>` for each mod dir, in order.
pub open spec fn overlay_sources(dirs: Seq<Seq<char>>) -> Seq<Seq<char>>
    decreases dirs.len(),
{
    if dirs.len() == 0 {
        seq![]
    } else {
        overlay_sources(dirs.drop_last()) + seq!["--overlay-src"@, dirs.last()]
    }
}

/// The `bwrap` argv: the whole filesystem bound, the deploy root as the
/// base layer, the mods stacked over it in order (later mods win), and the
/// writable overlay mounted back on the deploy root.
pub open spec fn bwrap_argv(root: Seq<char>, mods: Seq<Seq<char>>, upper: Seq<char>, work: Seq<char>) -> Seq<Seq<char>> {
    seq!["bwrap"@, "--dev-bind"@, "/"@, "/"@, "--overlay-src"@, root] + overlay_sources(mods) + seq![
        "--overlay"@,
        upper,
        work,
        root,
    ]
}

/// Builds the `bwrap` argv that overlays `mod_dirs` (lowest priority first)
/// over the game's deploy root. The argv has no trailing `%command%`.
pub fn bwrap_args(deploy_root: &str, mod_dirs: &[String], overlay: &OverlayDirs) -> (r: Vec<String>)
    ensures
        views(r@) == bwrap_argv(deploy_root@, views(mod_dirs@), overlay.upper@, overlay.work@),
{
    let mut args: Vec<String> = Vec::new();
    args.push(owned("bwrap"));
    args.push(owned("--dev-bind"));
    args.push(owned("/"));
    args.push(owned("/"));
    args.push(owned("--overlay-src"));
    args.push(owned(deploy_root));
    let ghost head = seq!["bwrap"@, "--dev-bind"@, "/"@, "/"@, "--overlay-src"@, deploy_root@];
    assert(views(args@) =~= head);
    let mut i: usize = 0;
    while i < mod_dirs.len()
        invariant
            i <= mod_dirs@.len(),
            views(args@) == head + overlay_sources(views(mod_dirs@).take(i as int)),
        decreases mod_dirs@.len() - i,
    {
        let ghost before = views(args@);
        args.push(owned("--overlay-src"));
        args.push(owned(mod_dirs[i].as_str()));
        assert(views(mod_dirs@).take(i + 1).drop_last() =~= views(mod_dirs@).take(i as int));
        assert(views(args@) =~= before + seq!["--overlay-src"@, mod_dirs@[i as int]@]);
        i = i + 1;
    }
    assert(views(mod_dirs@).take(i as int) =~= views(mod_dirs@));
    let ghost mid = views(args@);
    args.push(owned("--overlay"));
    args.push(owned(overlay.upper.as_str()));
    args.push(owned(overlay.work.as_str()));
    args.push(owned(deploy_root));
    assert(views(args@) =~= mid + seq!["--overlay"@, overlay.upper@, overlay.work@, deploy_root@]);
    args
}

/// Whether an argument needs quoting for the shell: it is empty or holds a
/// blank, a tab or a quote.
pub open spec fn needs_quotes(a: Seq<char>) -> bool {
    a.len() == 0 || exists|i: int|
        0 <= i < a.len() && (a[i] == ' ' || a[i] == '\t' || a[i] == '"' || a[i] == '\'')
}

/// `a` with each `'` written as `'\''`.
pub open spec fn escape_quotes(a: Seq<char>) -> Seq<char>
    decreases a.len(),
{
    if a.len() == 0 {
        seq![]
    } else if a.last() == '\'' {
        escape_quotes(a.drop_last()) + seq!['\'', '\\', '\'', '\'']
    } else {
        escape_quotes(a.drop_last()).push(a.last())
    }
}

/// One argument as written for the shell.
pub open spec fn quoted_arg(a: Seq<char>) -> Seq<char> {
    if needs_quotes(a) {
        seq!['\''] + escape_quotes(a) + seq!['\'']
    } else {
        a
    }
}

/// The quoted arguments joined by single spaces.
pub open spec fn shell_line(args: Seq<Seq<char>>) -> Seq<char>
    decreases args.len(),
{
    if args.len() == 0 {
        seq![]
    } else if args.len() == 1 {
        quoted_arg(args[0])
    } else {
        shell_line(args.drop_last()) + seq![' '] + quoted_arg(args.last())
    }
}

fn quote_arg(a: &str) -> (r: String)
    ensures
        r@ == quoted_arg(a@),
{
    let cs = chars_of(a);
    let mut special = cs.len() == 0;
    let mut esc = String::new();
    let mut i: usize = 0;
    while i < cs.len()
        invariant
            cs@ == a@,
            i <= cs@.len(),
            esc@ == escape_quotes(cs@.take(i as int)),
            special == (cs@.len() == 0 || exists|j: int|
                0 <= j < i && (cs@[j] == ' ' || cs@[j] == '\t' || cs@[j] == '"' || cs@[j] == '\'')),
        decreases cs@.len() - i,
    {
        let c = cs[i];
        assert(cs@.take(i + 1).drop_last() =~= cs@.take(i as int));
        if c == ' ' || c == '\t' || c == '"' || c == '\'' {
            special = true;
        }
        if c == '\'' {
            push_str(&mut esc, "'\\''");
            proof {
                reveal_strlit("'\\''");
            }
            assert(esc@ =~= escape_quotes(cs@.take(i + 1)));
        } else {
            push_char(&mut esc, c);
        }
        i = i + 1;
    }
    assert(cs@.take(i as int) =~= cs@);
    if special {
        let mut r = String::new();
        push_char(&mut r, '\'');
        push_str(&mut r, esc.as_str());
        push_char(&mut r, '\'');
        assert(r@ =~= seq!['\''] + escape_quotes(a@) + seq!['\'']);
        r
    } else {
        owned(a)
    }
}

/// Minimal shell quoting for display and pasting.
pub fn shell_join(args: &[String]) -> (r: String)
    ensures
        r@ == shell_line(views(args@)),
{
    let mut out = String::new();
    let mut i: usize = 0;
    while i < args.len()
        invariant
            i <= args@.len(),
            out@ == shell_line(views(args@).take(i as int)),
        decreases args@.len() - i,
    {
        assert(views(args@).take(i + 1).drop_last() =~= views(args@).take(i as int));
        assert(views(args@)[i as int] == args@[i as int]@);
        let q = quote_arg(args[i].as_str());
        if i > 0 {
            push_char(&mut out, ' ');
        }
        push_str(&mut out, q.as_str());
        proof {
            if i == 0 {
                assert(out@ =~= shell_line(views(args@).take(1)));
            }
        }
        i = i + 1;
    }
    assert(views(args@).take(i as int) =~= views(args@));
    out
}

/// The Steam launch option for an overlay: the quoted argv, then
/// ` -- %command%`.
pub open spec fn launch_line(root: Seq<char>, mods: Seq<Seq<char>>, upper: Seq<char>, work: Seq<char>) -> Seq<char> {
    shell_line(bwrap_argv(root, mods, upper, work)) + " -- %command%"@
}

/// A ready-to-paste Steam launch option string ending in `%command%`.
pub fn steam_launch_option(deploy_root: &str, mod_dirs: &[String], overlay: &OverlayDirs) -> (r: String)
    ensures
        r@ == launch_line(deploy_root@, views(mod_dirs@), overlay.upper@, overlay.work@),
{
    let args = bwrap_args(deploy_root, mod_dirs, overlay);
    let mut s = shell_join(args.as_slice());
    push_str(&mut s, " -- %command%");
    s
}

/// The overlay launch option for a game and its ordered mod dirs, for a
/// game that deploys into its install dir; `None` for games that deploy
/// into the prefix's Documents folder (where an overlay wrapper does not
/// apply) and when the deploy root cannot be located.
pub fn launch_option_for(
    game: &InstalledGame,
    users: &PrefixUsers,
    store_dir: &str,
    mod_dirs: &[String],
) -> (r: Option<String>)
    ensures
        game.spec.deploy is PrefixDocs ==> r is None,
        game.spec.deploy is GameDir ==> match deploy_root_of(*game, *users) {
            Some(root) => r matches Some(s) && s@ == launch_line(
                root,
                views(mod_dirs@),
                path_join(store_dir@, ".overlay/upper"@),
                path_join(store_dir@, ".overlay/work"@),
            ),
            None => r is None,
        },
{
    if let DeployTarget::PrefixDocs(_) = game.spec.deploy {
        return None;
    }
    let root = match game.deploy_root(users) {
        Ok(r) => r,
        Err(_) => return None,
    };
    let overlay = OverlayDirs::under(store_dir);
    Some(steam_launch_option(root.as_str(), mod_dirs, &overlay))
}

} // verus!
