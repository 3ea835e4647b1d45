//! Finding the file a bare program name stands for, the way the Windows shell
//! does: by trying each directory of `PATH` with each extension of `PATHEXT`.
//! Elsewhere the name is left to the operating system.
use vstd::prelude::*;
use crate::text::{from_chars, has_char, pieces, split_on, to_chars, chars_has};

verus! {

/// The extensions tried when `PATHEXT` is unset, in order.
pub const DEFAULT_PATHEXT: &'static str = ".COM;.EXE;.BAT;.CMD";

/// Whether a command holds a path separator.
pub open spec fn names_a_path(command: Seq<char>) -> bool {
    has_char(command, '/') || has_char(command, '\\')
}

/// Whether a file name has an extension: a dot after its first character,
/// except for `..`.
pub open spec fn has_extension(name: Seq<char>) -> bool {
    name != ".."@ && exists|i: int| 0 < i < name.len() && name[i] == '.'
}

/// Whether a command is looked up: on Windows, a bare name without an
/// extension.
pub open spec fn needs_lookup(windows: bool, command: Seq<char>) -> bool {
    windows && !names_a_path(command) && !has_extension(command)
}

/// Whether a text starts with a drive, such as `C:`.
pub open spec fn starts_with_drive(s: Seq<char>) -> bool {
    s.len() >= 2 && s[1] == ':' && (('a' <= s[0] && s[0] <= 'z') || ('A' <= s[0] && s[0] <= 'Z'))
}

/// A file name inside a directory as Windows joins them: a name that starts
/// with a drive stands alone; no separator follows an empty directory, one
/// that already ends in one, or a bare drive.
pub open spec fn join_windows(dir: Seq<char>, name: Seq<char>) -> Seq<char> {
    if starts_with_drive(name) {
        name
    } else if dir.len() == 0 || dir.last() == '\\' || dir.last() == '/' || (dir.len() == 2
        && starts_with_drive(dir)) {
        dir + name
    } else {
        dir + "\\"@ + name
    }
}

/// The non-empty pieces of a list.
pub open spec fn non_empty(ps: Seq<Seq<char>>) -> Seq<Seq<char>>
    decreases ps.len(),
{
    if ps.len() == 0 {
        seq![]
    } else if ps.last().len() == 0 {
        non_empty(ps.drop_last())
    } else {
        non_empty(ps.drop_last()).push(ps.last())
    }
}

/// The extensions to try, in order.
pub open spec fn extensions(pathext: Option<Seq<char>>) -> Seq<Seq<char>> {
    non_empty(
        pieces(
            match pathext {
                Some(p) => p,
                None => DEFAULT_PATHEXT@,
            },
            ';',
        ),
    )
}

/// The candidates in one directory, one per extension.
pub open spec fn in_dir(dir: Seq<char>, command: Seq<char>, exts: Seq<Seq<char>>) -> Seq<Seq<char>> {
    exts.map_values(|e: Seq<char>| join_windows(dir, command + e))
}

/// The candidates in all directories, directory by directory.
pub open spec fn all_candidates(dirs: Seq<Seq<char>>, command: Seq<char>, exts: Seq<Seq<char>>) -> Seq<
    Seq<char>,
>
    decreases dirs.len(),
{
    if dirs.len() == 0 {
        seq![]
    } else {
        all_candidates(dirs.drop_last(), command, exts) + in_dir(dirs.last(), command, exts)
    }
}

/// Texts as values.
pub open spec fn texts_view(v: Seq<String>) -> Seq<Seq<char>> {
    v.map_values(|s: String| s@)
}

/// The files to look for, in the order the shell tries them: none unless the
/// command needs a lookup and `PATH` is set.
pub open spec fn lookup_candidates(
    command: Seq<char>,
    windows: bool,
    path_dirs: Option<Seq<Seq<char>>>,
    pathext: Option<Seq<char>>,
) -> Seq<Seq<char>> {
    if !needs_lookup(windows, command) {
        seq![]
    } else {
        match path_dirs {
            None => seq![],
            Some(dirs) => all_candidates(dirs, command, extensions(pathext)),
        }
    }
}

/// Whether a file name has an extension.
fn has_extension_exec(v: &Vec<char>) -> (r: bool)
    ensures
        r == has_extension(v@),
{
    proof {
        reveal_strlit("..");
    }
    if v.len() == 2 && v[0] == '.' && v[1] == '.' {
        proof {
            assert(v@ =~= ".."@);
        }
        return false;
    }
    proof {
        if v@ == ".."@ {
            assert(v@.len() == 2 && v@[0] == '.' && v@[1] == '.');
        }
    }
    let mut i: usize = 1;
    while i < v.len()
        invariant
            1 <= i,
            v@ != ".."@,
            forall|j: int| 0 < j < i && j < v@.len() ==> v@[j] != '.',
        decreases v.len() - i,
    {
        if v[i] == '.' {
            return true;
        }
        i += 1;
    }
    false
}

/// Whether a text starts with a drive.
fn starts_with_drive_exec(v: &Vec<char>) -> (r: bool)
    ensures
        r == starts_with_drive(v@),
{
    v.len() >= 2 && v[1] == ':' && (('a' <= v[0] && v[0] <= 'z') || ('A' <= v[0] && v[0] <= 'Z'))
}

/// A name joined to a directory.
fn join_exec(dir: &Vec<char>, name: &Vec<char>) -> (r: String)
    ensures
        r@ == join_windows(dir@, name@),
{
    if starts_with_drive_exec(name) {
        return from_chars(name);
    }
    let mut out = dir.clone();
    let bare = dir.len() == 0 || dir[dir.len() - 1] == '\\' || dir[dir.len() - 1] == '/' || (
    dir.len() == 2 && starts_with_drive_exec(dir));
    if !bare {
        out.push('\\');
    }
    crate::text::extend_chars(&mut out, name);
    proof {
        reveal_strlit("\\");
        if !bare {
            assert(out@ =~= dir@ + "\\"@ + name@);
        } else {
            assert(out@ =~= dir@ + name@);
        }
    }
    from_chars(&out)
}

/// The extensions to try.
fn extensions_exec(pathext: &Option<String>) -> (r: Vec<Vec<char>>)
    ensures
        r@.map_values(|e: Vec<char>| e@) == extensions(
            match pathext {
                Some(p) => Some(p@),
                None => None,
            },
        ),
{
    let text = match pathext {
        Some(p) => to_chars(p.as_str()),
        None => to_chars(DEFAULT_PATHEXT),
    };
    let parts = split_on(&text, ';');
    let ghost ps = pieces(text@, ';');
    let mut out: Vec<Vec<char>> = Vec::new();
    let mut i: usize = 0;
    proof {
        assert(ps.take(0) =~= Seq::<Seq<char>>::empty());
    }
    while i < parts.len()
        invariant
            i <= parts.len(),
            parts@.len() == ps.len(),
            forall|j: int| 0 <= j < parts@.len() ==> #[trigger] parts@[j]@ == ps[j],
            out@.map_values(|e: Vec<char>| e@) == non_empty(ps.take(i as int)),
        decreases parts.len() - i,
    {
        proof {
            assert(ps.take(i + 1).drop_last() =~= ps.take(i as int));
            assert(ps.take(i + 1).last() == parts@[i as int]@);
        }
        if parts[i].len() > 0 {
            let ghost before = out@.map_values(|e: Vec<char>| e@);
            out.push(parts[i].clone());
            proof {
                assert(out@.map_values(|e: Vec<char>| e@) =~= before.push(parts@[i as int]@));
            }
        }
        i += 1;
    }
    proof {
        assert(ps.take(parts.len() as int) =~= ps);
    }
    out
}

/// The files to look for a command as, in the order the shell tries them.
pub fn candidates(
    command: &str,
    windows: bool,
    path_dirs: &Option<Vec<String>>,
    pathext: &Option<String>,
) -> (r: Vec<String>)
    ensures
        texts_view(r@) == lookup_candidates(
            command@,
            windows,
            match path_dirs {
                Some(d) => Some(texts_view(d@)),
                None => None,
            },
            match pathext {
                Some(p) => Some(p@),
                None => None,
            },
        ),
{
    let c = to_chars(command);
    let lookup = windows && !chars_has(&c, '/') && !chars_has(&c, '\\') && !has_extension_exec(&c);
    let mut out: Vec<String> = Vec::new();
    if !lookup {
        proof {
            assert(texts_view(out@) =~= Seq::<Seq<char>>::empty());
        }
        return out;
    }
    let dirs = match path_dirs {
        None => {
            proof {
                assert(texts_view(out@) =~= Seq::<Seq<char>>::empty());
            }
            return out;
        },
        Some(d) => d,
    };
    let exts = extensions_exec(pathext);
    let ghost ev = exts@.map_values(|e: Vec<char>| e@);
    let ghost dv = texts_view(dirs@);
    let mut i: usize = 0;
    proof {
        assert(dv.take(0) =~= Seq::<Seq<char>>::empty());
        assert(texts_view(out@) =~= Seq::<Seq<char>>::empty());
    }
    while i < dirs.len()
        invariant
            i <= dirs.len(),
            dv == texts_view(dirs@),
            ev == exts@.map_values(|e: Vec<char>| e@),
            texts_view(out@) == all_candidates(dv.take(i as int), c@, ev),
        decreases dirs.len() - i,
    {
        let d = to_chars(dirs[i].as_str());
        let ghost start = texts_view(out@);
        let mut j: usize = 0;
        proof {
            assert(start + in_dir(d@, c@, ev.take(0)) =~= start);
        }
        while j < exts.len()
            invariant
                j <= exts.len(),
                ev == exts@.map_values(|e: Vec<char>| e@),
                texts_view(out@) == start + in_dir(d@, c@, ev.take(j as int)),
            decreases exts.len() - j,
        {
            let mut name = c.clone();
            crate::text::extend_chars(&mut name, &exts[j]);
            let joined = join_exec(&d, &name);
            let ghost before = texts_view(out@);
            out.push(joined);
            proof {
                assert(texts_view(out@) =~= before.push(joined@));
                assert(ev.take(j + 1) =~= ev.take(j as int).push(ev[j as int]));
                assert(in_dir(d@, c@, ev.take(j + 1)) =~= in_dir(d@, c@, ev.take(j as int)).push(
                    join_windows(d@, c@ + ev[j as int]),
                ));
            }
            j += 1;
        }
        proof {
            assert(ev.take(exts.len() as int) =~= ev);
            assert(dv.take(i + 1).drop_last() =~= dv.take(i as int));
            assert(dv.take(i + 1).last() == d@);
        }
        i += 1;
    }
    proof {
        assert(dv.take(dirs.len() as int) =~= dv);
    }
    out
}

/// The first candidate found, if any.
pub open spec fn first_found(cs: Seq<Seq<char>>, found: Seq<bool>) -> Option<int>
    decreases cs.len(),
{
    if cs.len() == 0 {
        None
    } else {
        match first_found(cs.drop_last(), found) {
            Some(i) => Some(i),
            None => if cs.len() - 1 < found.len() && found[cs.len() - 1] {
                Some(cs.len() - 1)
            } else {
                None
            },
        }
    }
}

/// What a command resolves to: the first candidate that was found to be a
/// file, else the command unchanged, for the system to report.
pub fn resolve(command: &str, candidates: &Vec<String>, found: &Vec<bool>) -> (r: String)
    ensures
        r@ == match first_found(texts_view(candidates@), found@) {
            Some(i) => texts_view(candidates@)[i],
            None => command@,
        },
{
    let ghost cv = texts_view(candidates@);
    let mut i: usize = 0;
    proof {
        assert(cv.take(0) =~= Seq::<Seq<char>>::empty());
    }
    while i < candidates.len()
        invariant
            i <= candidates.len(),
            cv == texts_view(candidates@),
            first_found(cv.take(i as int), found@) is None,
        decreases candidates.len() - i,
    {
        proof {
            assert(cv.take(i + 1).drop_last() =~= cv.take(i as int));
        }
        if i < found.len() && found[i] {
            proof {
                lemma_first_found_extends(cv, found@, i as int + 1);
            }
            return candidates[i].clone();
        }
        i += 1;
    }
    proof {
        assert(cv.take(candidates.len() as int) =~= cv);
    }
    String::from_str(command)
}

/// The first found among a prefix is the first found overall.
proof fn lemma_first_found_extends(cs: Seq<Seq<char>>, found: Seq<bool>, k: int)
    requires
        0 <= k <= cs.len(),
        first_found(cs.take(k), found) is Some,
    ensures
        first_found(cs, found) == first_found(cs.take(k), found),
    decreases cs.len() - k,
{
    if k < cs.len() {
        assert(cs.take(k + 1).drop_last() =~= cs.take(k));
        lemma_first_found_extends(cs, found, k + 1);
    } else {
        assert(cs.take(k) =~= cs);
    }
}

} // verus!
