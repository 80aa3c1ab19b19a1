//! The grab and install operations.
//!
//! `grab` derives a fresh manifest entry from an existing local file;
//! `install` decides, for a manifest and a target platform, which copies
//! to perform. Performing the copies — and every other filesystem step —
//! is the caller's job: `install` returns the copy list so the caller can
//! carry it out and report per-copy failures without aborting.

use vstd::prelude::*;
use vstd::relations::sorted_by;
use crate::entry::{Config, ConfigView, PlatformPath, PlatformPathView, cfgs_view, locs_view,
    loc_le};
use crate::errors::CrabError;
use crate::order::str_eq;

verus! {

/// One pending copy: `file` is copied from `from_dir` into `to_dir`.
#[derive(Debug, Clone, PartialEq)]
pub struct CopyOp {
    pub file: String,
    pub from_dir: String,
    pub to_dir: String,
}

/// The mathematical value of a `CopyOp`.
#[verifier::ext_equal]
pub struct CopyOpView {
    pub file: Seq<char>,
    pub from_dir: Seq<char>,
    pub to_dir: Seq<char>,
}

impl View for CopyOp {
    type V = CopyOpView;

    open spec fn view(&self) -> CopyOpView {
        CopyOpView { file: self.file@, from_dir: self.from_dir@, to_dir: self.to_dir@ }
    }
}

/// The mathematical values of a list of copies.
pub open spec fn ops_view(v: Seq<CopyOp>) -> Seq<CopyOpView> {
    v.map_values(|o: CopyOp| o@)
}

/// The first location of `paths` registered for `platform`, if any.
pub open spec fn spec_first_match(paths: Seq<PlatformPathView>, platform: Seq<char>) -> Option<
    PlatformPathView,
>
    decreases paths.len(),
{
    if paths.len() == 0 {
        None
    } else if paths[0].platform == platform {
        Some(paths[0])
    } else {
        spec_first_match(paths.drop_first(), platform)
    }
}

/// The copies `install` decides on for `entries` and `platform`: for each
/// entry whose locations hold the platform, one copy of the entry's file
/// from its canonical directory into the first matching location, in
/// stored order; entries with no matching location contribute nothing.
pub open spec fn spec_install(entries: Seq<ConfigView>, platform: Seq<char>) -> Seq<CopyOpView>
    decreases entries.len(),
{
    if entries.len() == 0 {
        Seq::empty()
    } else {
        let head = match spec_first_match(entries[0].paths, platform) {
            Some(l) => seq![
                (CopyOpView {
                    file: entries[0].file,
                    from_dir: entries[0].file_dir,
                    to_dir: l.path,
                }),
            ],
            None => Seq::<CopyOpView>::empty(),
        };
        head + spec_install(entries.drop_first(), platform)
    }
}

/// The index of the first location registered for `platform`, if any.
fn find_match(paths: &Vec<PlatformPath>, platform: &str) -> (r: Option<usize>)
    ensures
        match r {
            Some(k) => k < paths@.len() && spec_first_match(locs_view(paths@), platform@) == Some(
                paths@[k as int]@,
            ) && paths@[k as int]@.platform == platform@,
            None => spec_first_match(locs_view(paths@), platform@) is None,
        },
{
    let ghost lv = locs_view(paths@);
    let n = paths.len();
    let mut i: usize = 0;
    assert(lv.skip(0) =~= lv);
    while i < n
        invariant
            n == paths@.len(),
            i <= n,
            lv == locs_view(paths@),
            spec_first_match(lv, platform@) == spec_first_match(lv.skip(i as int), platform@),
        decreases n - i,
    {
        proof {
            assert(lv.skip(i as int)[0] == paths@[i as int]@);
        }
        if str_eq(paths[i].platform.as_str(), platform) {
            return Some(i);
        }
        proof {
            assert(lv.skip(i as int).drop_first() =~= lv.skip(i + 1));
        }
        i = i + 1;
    }
    assert(lv.skip(i as int).len() == 0);
    None
}

/// Decide the copies for `config` on `platform`: scan each entry's sorted
/// locations, take the first whose platform matches, and plan a copy of
/// the entry's file from its canonical directory into that location;
/// entries with no match are skipped silently.
pub fn install(config: &Vec<Config>, platform: &str) -> (r: Vec<CopyOp>)
    ensures
        ops_view(r@) == spec_install(cfgs_view(config@), platform@),
{
    let ghost cv = cfgs_view(config@);
    let mut out: Vec<CopyOp> = Vec::new();
    let mut i: usize = 0;
    proof {
        assert(cv.skip(0) =~= cv);
        assert(ops_view(out@) + spec_install(cv, platform@) =~= spec_install(cv, platform@));
    }
    while i < config.len()
        invariant
            cv == cfgs_view(config@),
            cv.len() == config@.len(),
            i <= config@.len(),
            spec_install(cv, platform@) == ops_view(out@) + spec_install(
                cv.skip(i as int),
                platform@,
            ),
        decreases config@.len() - i,
    {
        let ghost out0 = ops_view(out@);
        let ghost e = cv[i as int];
        proof {
            assert(e == config@[i as int]@);
            assert(cv.skip(i as int)[0] == e);
            assert(cv.skip(i as int).drop_first() =~= cv.skip(i + 1));
        }
        match find_match(&config[i].paths, platform) {
            Some(k) => {
                let op = CopyOp {
                    file: config[i].file.clone(),
                    from_dir: config[i].file_dir.clone(),
                    to_dir: config[i].paths[k].path.clone(),
                };
                proof {
                    assert(locs_view(config@[i as int].paths@) =~= e.paths);
                    assert(config@[i as int].paths@[k as int]@ == e.paths[k as int]);
                    assert(op@ =~= (CopyOpView {
                        file: e.file,
                        from_dir: e.file_dir,
                        to_dir: spec_first_match(e.paths, platform@).unwrap().path,
                    }));
                }
                out.push(op);
                proof {
                    assert(ops_view(out@) =~= out0 + seq![op@]);
                    assert(spec_install(cv.skip(i as int), platform@) == seq![op@]
                        + spec_install(cv.skip(i + 1), platform@));
                    assert(out0 + (seq![op@] + spec_install(cv.skip(i + 1), platform@))
                        =~= ops_view(out@) + spec_install(cv.skip(i + 1), platform@));
                }
            },
            None => {
                proof {
                    assert(locs_view(config@[i as int].paths@) =~= e.paths);
                    assert(spec_install(cv.skip(i as int), platform@) == spec_install(
                        cv.skip(i + 1),
                        platform@,
                    ));
                    assert(out0 + spec_install(cv.skip(i + 1), platform@) =~= ops_view(out@)
                        + spec_install(cv.skip(i + 1), platform@));
                }
            },
        }
        i = i + 1;
    }
    assert(cv.skip(i as int).len() == 0);
    assert(spec_install(cv.skip(i as int), platform@) == Seq::<CopyOpView>::empty());
    assert(ops_view(out@) + Seq::<CopyOpView>::empty() =~= ops_view(out@));
    out
}

/// The index of the last `/` in `s`, or `-1` when there is none.
pub open spec fn last_slash_idx(s: Seq<char>) -> int
    decreases s.len(),
{
    if s.len() == 0 {
        -1
    } else if s[s.len() - 1] == '/' {
        s.len() - 1
    } else {
        last_slash_idx(s.drop_last())
    }
}

/// The file-name part of a canonical path: what follows its last `/`, or
/// the whole path when it has none.
pub open spec fn spec_file_of(s: Seq<char>) -> Seq<char> {
    s.skip(last_slash_idx(s) + 1)
}

/// The directory part of a canonical path: what precedes its last `/`,
/// the root `/` itself when that slash leads the path, or empty when the
/// path has no `/`.
pub open spec fn spec_dir_of(s: Seq<char>) -> Seq<char> {
    let k = last_slash_idx(s);
    if k < 0 {
        Seq::empty()
    } else if k == 0 {
        seq!['/']
    } else {
        s.subrange(0, k)
    }
}

/// A canonical path yields a grab entry exactly when its file-name part
/// is nonempty.
pub open spec fn grab_ok(s: Seq<char>) -> bool {
    spec_file_of(s).len() > 0
}

/// The entry `grab` derives from a canonical path: the file-name part as
/// the tracked file, an empty canonical directory, and one location
/// holding the directory part under `platform`.
pub open spec fn spec_grab_entry(canon: Seq<char>, platform: Seq<char>) -> ConfigView {
    ConfigView {
        file: spec_file_of(canon),
        file_dir: Seq::empty(),
        paths: seq![(PlatformPathView { platform: platform, path: spec_dir_of(canon) })],
    }
}

/// The root `/` as a string slice.
fn slash_str() -> (r: &'static str)
    ensures
        r@ == seq!['/'],
{
    let r = "/";
    proof {
        reveal_strlit("/");
        assert(r@ =~= seq!['/']);
    }
    r
}

/// Split an already-canonical path into file name and parent directory
/// and build the grab entry for it; a path without a file-name part (the
/// root, or one ending in `/`) is rejected.
pub fn entry_from_path(canon: &str, platform: &str) -> (r: Result<Config, CrabError>)
    ensures
        match r {
            Ok(c) => grab_ok(canon@) && c@ == spec_grab_entry(canon@, platform@) && c.wf(),
            Err(e) => e == CrabError::InvalidPath && !grab_ok(canon@),
        },
{
    let n = canon.unicode_len();
    let mut j: usize = n;
    assert(canon@.subrange(0, n as int) =~= canon@);
    while j > 0
        invariant
            j <= n,
            n == canon@.len(),
            last_slash_idx(canon@) == last_slash_idx(canon@.subrange(0, j as int)),
        decreases j,
    {
        let ghost pre = canon@.subrange(0, j as int);
        assert(pre[j - 1] == canon@[j - 1]);
        let c = canon.get_char(j - 1);
        if c == '/' {
            assert(last_slash_idx(canon@) == j - 1);
            if j == n {
                assert(spec_file_of(canon@) =~= canon@.skip(j as int));
                assert(!grab_ok(canon@));
                return Err(CrabError::InvalidPath);
            }
            let file = canon.substring_char(j, n).to_owned();
            assert(file@ =~= spec_file_of(canon@));
            let dir = if j == 1 {
                slash_str().to_owned()
            } else {
                canon.substring_char(0, j - 1).to_owned()
            };
            assert(dir@ =~= spec_dir_of(canon@));
            return Ok(build_grab_entry(file, dir, platform, Ghost(canon@)));
        }
        proof {
            assert(pre.drop_last() =~= canon@.subrange(0, (j - 1) as int));
        }
        j = j - 1;
    }
    proof {
        assert(canon@.subrange(0, 0).len() == 0);
        assert(last_slash_idx(canon@) == -1);
        assert(spec_file_of(canon@) =~= canon@);
        assert(spec_dir_of(canon@) =~= Seq::<char>::empty());
    }
    if canon.unicode_len() == 0 {
        return Err(CrabError::InvalidPath);
    }
    let file = canon.to_owned();
    let dir = String::new();
    Ok(build_grab_entry(file, dir, platform, Ghost(canon@)))
}

/// Assemble the entry `grab` yields for a split canonical path.
fn build_grab_entry(file: String, dir: String, platform: &str, canon: Ghost<Seq<char>>) -> (r:
    Config)
    requires
        file@ == spec_file_of(canon@),
        dir@ == spec_dir_of(canon@),
    ensures
        r@ == spec_grab_entry(canon@, platform@),
        r.wf(),
{
    let loc = PlatformPath { platform: platform.to_owned(), path: dir };
    let mut paths: Vec<PlatformPath> = Vec::new();
    paths.push(loc);
    let c = Config { file: file, file_dir: String::new(), paths: paths };
    proof {
        assert(c@.paths =~= seq![
            (PlatformPathView { platform: platform@, path: spec_dir_of(canon@) }),
        ]);
        assert(c@ =~= spec_grab_entry(canon@, platform@));
        let leq = |a: PlatformPathView, b: PlatformPathView| loc_le(a, b);
        assert(sorted_by(c@.paths, leq));
    }
    c
}

/// Relies on `std::path::Path::canonicalize`: resolves the target against
/// the filesystem, following symlinks and normalizing the path; it fails
/// exactly when the target does not exist or cannot be resolved. The
/// canonical path is handed on as text when it is representable as such,
/// and rejected as an invalid path when it is not.
#[verifier::external_body]
fn canonicalize_target(target: &str) -> (r: Result<String, CrabError>)
    ensures
        match r {
            Ok(_) => true,
            Err(e) => e == CrabError::NotFound || e == CrabError::InvalidPath,
        },
{
    match std::path::Path::new(target).canonicalize() {
        Ok(p) => match p.to_str() {
            Some(cs) => Ok(cs.to_owned()),
            None => Err(CrabError::InvalidPath),
        },
        Err(_) => Err(CrabError::NotFound),
    }
}

/// Capture the current location of an existing file: resolve `target` to
/// its canonical absolute form and record the file's base name with its
/// parent directory under `platform`. The canonical source directory
/// (`file_dir`) is left empty; establishing it is a separate step. The
/// filesystem decides what the canonical form is (or that there is none,
/// `NotFound`); whatever it resolves to, the entry is split from it as
/// `spec_grab_entry` says. Nothing on disk is changed.
pub fn grab(target: &str, platform: &str) -> (r: Result<Config, CrabError>)
    ensures
        match r {
            Ok(c) => c.wf() && (exists|canon: Seq<char>|
                grab_ok(canon) && c@ == spec_grab_entry(canon, platform@)),
            Err(e) => e == CrabError::NotFound || e == CrabError::InvalidPath,
        },
{
    match canonicalize_target(target) {
        Ok(canon) => match entry_from_path(canon.as_str(), platform) {
            Ok(c) => {
                proof {
                    let w = canon@;
                    assert(grab_ok(w) && c@ == spec_grab_entry(w, platform@));
                }
                Ok(c)
            },
            Err(e) => Err(e),
        },
        Err(e) => Err(e),
    }
}

/// The effective verbosity for a toggle that may never have been set: a
/// set toggle speaks for itself, an unset one is quiet.
pub fn verbosity(setting: Option<bool>) -> (r: bool)
    ensures
        r == (setting == Some(true)),
{
    match setting {
        Some(v) => v,
        None => false,
    }
}

} // verus!
