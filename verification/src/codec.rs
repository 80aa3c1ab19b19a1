//! The manifest document format.
//!
//! A manifest is stored as a structured textual document: a sequence of
//! records, one per entry, each holding the `file` and `file_dir` fields
//! and a `paths` sequence of `{ platform, path }` records, in the entry's
//! stored (sorted) order. String values are double-quoted, with `\"` and
//! `\\` escapes, so every string round-trips. Decoding accepts exactly the
//! documents this module emits and rejects everything else.
//!
//! An entry looks like this on the wire:
//!
//! ```text
//! - file: "c.txt"
//!   file_dir: "/src"
//!   paths:
//!     - platform: "linux"
//!       path: "/L"
//! ```

use vstd::prelude::*;
use crate::entry::{Config, ConfigView, PlatformPath, PlatformPathView, cfgs_view, locs_view};
use crate::errors::CrabError;
use crate::replace::matches_at;

verus! {

/// The label opening an entry record and its `file` field.
pub open spec fn lab_file() -> Seq<char> {
    "- file: \""@
}

/// The label between the `file` value and the `file_dir` field.
pub open spec fn lab_file_dir() -> Seq<char> {
    "\n  file_dir: \""@
}

/// The label between the `file_dir` value and the location records.
pub open spec fn lab_paths() -> Seq<char> {
    "\n  paths:\n"@
}

/// The label opening a location record and its `platform` field.
pub open spec fn lab_platform() -> Seq<char> {
    "    - platform: \""@
}

/// The label between the `platform` value and the `path` field.
pub open spec fn lab_path() -> Seq<char> {
    "\n      path: \""@
}

/// The line break closing a location record.
pub open spec fn lab_nl() -> Seq<char> {
    "\n"@
}

/// A string value's characters with `"` and `\` escaped.
pub open spec fn escape(x: Seq<char>) -> Seq<char>
    decreases x.len(),
{
    if x.len() == 0 {
        Seq::empty()
    } else if x[0] == '"' || x[0] == '\\' {
        seq!['\\', x[0]] + escape(x.drop_first())
    } else {
        seq![x[0]] + escape(x.drop_first())
    }
}

/// A quoted string value's wire form after its opening quote: the escaped
/// characters and the closing quote.
pub open spec fn enc_str(x: Seq<char>) -> Seq<char> {
    escape(x) + seq!['"']
}

/// One location record's wire form.
pub open spec fn enc_loc(l: PlatformPathView) -> Seq<char> {
    lab_platform() + enc_str(l.platform) + lab_path() + enc_str(l.path) + lab_nl()
}

/// A location list's wire form.
pub open spec fn enc_locs(ls: Seq<PlatformPathView>) -> Seq<char>
    decreases ls.len(),
{
    if ls.len() == 0 {
        Seq::empty()
    } else {
        enc_loc(ls[0]) + enc_locs(ls.drop_first())
    }
}

/// One entry record's wire form.
pub open spec fn enc_entry(e: ConfigView) -> Seq<char> {
    lab_file() + enc_str(e.file) + lab_file_dir() + enc_str(e.file_dir) + lab_paths() + enc_locs(
        e.paths,
    )
}

/// A whole manifest's wire form: the entry records, one after another.
pub open spec fn spec_encode(m: Seq<ConfigView>) -> Seq<char>
    decreases m.len(),
{
    if m.len() == 0 {
        Seq::empty()
    } else {
        enc_entry(m[0]) + spec_encode(m.drop_first())
    }
}

/// Consume an exact literal, yielding what follows it.
pub open spec fn p_lit(s: Seq<char>, lit: Seq<char>) -> Option<Seq<char>> {
    if lit.len() <= s.len() && s.subrange(0, lit.len() as int) == lit {
        Some(s.skip(lit.len() as int))
    } else {
        None
    }
}

/// Consume a quoted value's body up to and including its closing quote,
/// undoing the escapes, yielding the value and what follows.
pub open spec fn p_qbody(s: Seq<char>) -> Option<(Seq<char>, Seq<char>)>
    decreases s.len(),
{
    if s.len() == 0 {
        None
    } else if s[0] == '"' {
        Some((Seq::empty(), s.drop_first()))
    } else if s[0] == '\\' {
        if s.len() >= 2 && (s[1] == '\\' || s[1] == '"') {
            match p_qbody(s.skip(2)) {
                Some((x, r)) => Some((seq![s[1]] + x, r)),
                None => None,
            }
        } else {
            None
        }
    } else {
        match p_qbody(s.drop_first()) {
            Some((x, r)) => Some((seq![s[0]] + x, r)),
            None => None,
        }
    }
}

/// Consume one location record.
pub open spec fn p_loc(s: Seq<char>) -> Option<(PlatformPathView, Seq<char>)> {
    match p_lit(s, lab_platform()) {
        Some(s1) => match p_qbody(s1) {
            Some((plat, s2)) => match p_lit(s2, lab_path()) {
                Some(s3) => match p_qbody(s3) {
                    Some((path, s4)) => match p_lit(s4, lab_nl()) {
                        Some(s5) => Some((PlatformPathView { platform: plat, path: path }, s5)),
                        None => None,
                    },
                    None => None,
                },
                None => None,
            },
            None => None,
        },
        None => None,
    }
}

/// Consume location records for as long as one opens here.
pub open spec fn p_locs(s: Seq<char>) -> Option<(Seq<PlatformPathView>, Seq<char>)>
    decreases s.len(),
{
    if p_lit(s, lab_platform()) is None {
        Some((Seq::empty(), s))
    } else {
        match p_loc(s) {
            Some((l, rest)) => if rest.len() < s.len() {
                match p_locs(rest) {
                    Some((ls, r2)) => Some((seq![l] + ls, r2)),
                    None => None,
                }
            } else {
                None
            },
            None => None,
        }
    }
}

/// Consume one entry record.
pub open spec fn p_entry(s: Seq<char>) -> Option<(ConfigView, Seq<char>)> {
    match p_lit(s, lab_file()) {
        Some(s1) => match p_qbody(s1) {
            Some((file, s2)) => match p_lit(s2, lab_file_dir()) {
                Some(s3) => match p_qbody(s3) {
                    Some((file_dir, s4)) => match p_lit(s4, lab_paths()) {
                        Some(s5) => match p_locs(s5) {
                            Some((ls, s6)) => Some(
                                (ConfigView { file: file, file_dir: file_dir, paths: ls }, s6),
                            ),
                            None => None,
                        },
                        None => None,
                    },
                    None => None,
                },
                None => None,
            },
            None => None,
        },
        None => None,
    }
}

/// Consume entry records until the end of the document.
pub open spec fn p_entries(s: Seq<char>) -> Option<Seq<ConfigView>>
    decreases s.len(),
{
    if s.len() == 0 {
        Some(Seq::empty())
    } else {
        match p_entry(s) {
            Some((e, rest)) => if rest.len() < s.len() {
                match p_entries(rest) {
                    Some(es) => Some(seq![e] + es),
                    None => None,
                }
            } else {
                None
            },
            None => None,
        }
    }
}

/// What a manifest document means: the entries it encodes, if it is
/// exactly a document this module emits.
pub open spec fn spec_decode(s: Seq<char>) -> Option<Seq<ConfigView>> {
    p_entries(s)
}

/// A literal at the head of the input is consumed exactly.
proof fn lemma_p_lit(lit: Seq<char>, rest: Seq<char>)
    ensures
        p_lit(lit + rest, lit) == Some(rest),
{
    let s = lit + rest;
    assert(s.subrange(0, lit.len() as int) =~= lit);
    assert(s.skip(lit.len() as int) =~= rest);
}

/// Decoding a quoted value's wire form yields the value back.
proof fn lemma_p_qbody(x: Seq<char>, rest: Seq<char>)
    ensures
        p_qbody(escape(x) + seq!['"'] + rest) == Some((x, rest)),
    decreases x.len(),
{
    let s = escape(x) + seq!['"'] + rest;
    if x.len() == 0 {
        assert(s =~= seq!['"'] + rest);
        assert(s[0] == '"');
        assert(s.drop_first() =~= rest);
        assert(Seq::<char>::empty() =~= x);
    } else if x[0] == '"' || x[0] == '\\' {
        assert(escape(x) == seq!['\\', x[0]] + escape(x.drop_first()));
        assert(s[0] == '\\');
        assert(s[1] == x[0]);
        assert(s.len() >= 2);
        lemma_p_qbody(x.drop_first(), rest);
        assert(s.skip(2) =~= escape(x.drop_first()) + seq!['"'] + rest);
        assert(seq![s[1]] + x.drop_first() =~= x);
    } else {
        assert(escape(x) == seq![x[0]] + escape(x.drop_first()));
        assert(s[0] == x[0]);
        assert(s[0] != '"' && s[0] != '\\');
        lemma_p_qbody(x.drop_first(), rest);
        assert(s.drop_first() =~= escape(x.drop_first()) + seq!['"'] + rest);
        assert(seq![s[0]] + x.drop_first() =~= x);
    }
}

/// Decoding one location record's wire form yields the location back.
proof fn lemma_p_loc(l: PlatformPathView, rest: Seq<char>)
    ensures
        p_loc(enc_loc(l) + rest) == Some((l, rest)),
        enc_loc(l).len() > 0,
{
    reveal_strlit("    - platform: \"");
    reveal_strlit("\n      path: \"");
    reveal_strlit("\n");
    let s = enc_loc(l) + rest;
    let r1 = enc_str(l.platform) + lab_path() + enc_str(l.path) + lab_nl() + rest;
    assert(s =~= lab_platform() + r1);
    lemma_p_lit(lab_platform(), r1);
    let r2 = lab_path() + enc_str(l.path) + lab_nl() + rest;
    assert(r1 =~= escape(l.platform) + seq!['"'] + r2);
    lemma_p_qbody(l.platform, r2);
    let r3 = enc_str(l.path) + lab_nl() + rest;
    assert(r2 =~= lab_path() + r3);
    lemma_p_lit(lab_path(), r3);
    let r4 = lab_nl() + rest;
    assert(r3 =~= escape(l.path) + seq!['"'] + r4);
    lemma_p_qbody(l.path, r4);
    lemma_p_lit(lab_nl(), rest);
    assert(l =~= (PlatformPathView { platform: l.platform, path: l.path }));
}

/// Decoding a location list's wire form yields the list back, provided
/// what follows does not itself open a location record.
proof fn lemma_p_locs(ls: Seq<PlatformPathView>, rest: Seq<char>)
    requires
        rest.len() == 0 || rest[0] != ' ',
    ensures
        p_locs(enc_locs(ls) + rest) == Some((ls, rest)),
    decreases ls.len(),
{
    reveal_strlit("    - platform: \"");
    if ls.len() == 0 {
        assert(enc_locs(ls) + rest =~= rest);
        assert(lab_platform().len() > 0);
        assert(lab_platform()[0] == ' ');
        if rest.len() == 0 {
            assert(p_lit(rest, lab_platform()) is None);
        } else {
            if lab_platform().len() <= rest.len() {
                assert(rest.subrange(0, lab_platform().len() as int)[0] == rest[0]);
                assert(rest.subrange(0, lab_platform().len() as int) != lab_platform());
            }
            assert(p_lit(rest, lab_platform()) is None);
        }
        assert(p_locs(rest) == Some((Seq::<PlatformPathView>::empty(), rest)));
        assert(Seq::<PlatformPathView>::empty() =~= ls);
    } else {
        let s = enc_locs(ls) + rest;
        let tail = enc_locs(ls.drop_first()) + rest;
        assert(s =~= enc_loc(ls[0]) + tail);
        lemma_p_loc(ls[0], tail);
        assert(p_lit(s, lab_platform()) is Some) by {
            let r1 = enc_str(ls[0].platform) + lab_path() + enc_str(ls[0].path) + lab_nl() + tail;
            assert(s =~= lab_platform() + r1);
            lemma_p_lit(lab_platform(), r1);
        }
        assert(tail.len() < s.len());
        lemma_p_locs(ls.drop_first(), rest);
        assert(seq![ls[0]] + ls.drop_first() =~= ls);
    }
}

/// Decoding one entry record's wire form yields the entry back, provided
/// what follows does not open a location record.
proof fn lemma_p_entry(e: ConfigView, rest: Seq<char>)
    requires
        rest.len() == 0 || rest[0] != ' ',
    ensures
        p_entry(enc_entry(e) + rest) == Some((e, rest)),
        enc_entry(e).len() > 0,
        (enc_entry(e) + rest)[0] == '-',
{
    reveal_strlit("- file: \"");
    reveal_strlit("\n  file_dir: \"");
    reveal_strlit("\n  paths:\n");
    let s = enc_entry(e) + rest;
    let r1 = enc_str(e.file) + lab_file_dir() + enc_str(e.file_dir) + lab_paths() + enc_locs(
        e.paths,
    ) + rest;
    assert(s =~= lab_file() + r1);
    lemma_p_lit(lab_file(), r1);
    let r2 = lab_file_dir() + enc_str(e.file_dir) + lab_paths() + enc_locs(e.paths) + rest;
    assert(r1 =~= escape(e.file) + seq!['"'] + r2);
    lemma_p_qbody(e.file, r2);
    let r3 = enc_str(e.file_dir) + lab_paths() + enc_locs(e.paths) + rest;
    assert(r2 =~= lab_file_dir() + r3);
    lemma_p_lit(lab_file_dir(), r3);
    let r4 = lab_paths() + enc_locs(e.paths) + rest;
    assert(r3 =~= escape(e.file_dir) + seq!['"'] + r4);
    lemma_p_qbody(e.file_dir, r4);
    let r5 = enc_locs(e.paths) + rest;
    assert(r4 =~= lab_paths() + r5);
    lemma_p_lit(lab_paths(), r5);
    lemma_p_locs(e.paths, rest);
    assert(e =~= (ConfigView { file: e.file, file_dir: e.file_dir, paths: e.paths }));
    assert(s[0] == lab_file()[0]);
}

/// Decoding a whole encoded manifest yields the manifest back.
pub proof fn lemma_decode_encode(m: Seq<ConfigView>)
    ensures
        spec_decode(spec_encode(m)) == Some(m),
    decreases m.len(),
{
    reveal_strlit("- file: \"");
    if m.len() == 0 {
        assert(spec_encode(m).len() == 0);
        assert(Seq::<ConfigView>::empty() =~= m);
    } else {
        let s = spec_encode(m);
        let rest = spec_encode(m.drop_first());
        assert(s =~= enc_entry(m[0]) + rest);
        if m.drop_first().len() == 0 {
            assert(rest.len() == 0);
        } else {
            lemma_p_entry(m.drop_first()[0], spec_encode(m.drop_first().drop_first()));
            assert(rest =~= enc_entry(m.drop_first()[0]) + spec_encode(
                m.drop_first().drop_first(),
            ));
            assert(rest[0] == '-');
        }
        lemma_p_entry(m[0], rest);
        assert(rest.len() < s.len());
        lemma_decode_encode(m.drop_first());
        assert(seq![m[0]] + m.drop_first() =~= m);
    }
}


/// `pre` prepended to a quoted-value parse result.
spec fn qbody_prepend(pre: Seq<char>, r: Option<(Seq<char>, Seq<char>)>) -> Option<
    (Seq<char>, Seq<char>),
> {
    match r {
        Some((x, rest)) => Some((pre + x, rest)),
        None => None,
    }
}

/// `pre` prepended to a location-list parse result.
spec fn locs_prepend(
    pre: Seq<PlatformPathView>,
    r: Option<(Seq<PlatformPathView>, Seq<char>)>,
) -> Option<(Seq<PlatformPathView>, Seq<char>)> {
    match r {
        Some((ls, rest)) => Some((pre + ls, rest)),
        None => None,
    }
}

/// `pre` prepended to an entry-list parse result.
spec fn entries_prepend(pre: Seq<ConfigView>, r: Option<Seq<ConfigView>>) -> Option<
    Seq<ConfigView>,
> {
    match r {
        Some(es) => Some(pre + es),
        None => None,
    }
}

fn lab_file_str() -> (r: &'static str)
    ensures
        r@ == lab_file(),
{
    "- file: \""
}

fn lab_file_dir_str() -> (r: &'static str)
    ensures
        r@ == lab_file_dir(),
{
    "\n  file_dir: \""
}

fn lab_paths_str() -> (r: &'static str)
    ensures
        r@ == lab_paths(),
{
    "\n  paths:\n"
}

fn lab_platform_str() -> (r: &'static str)
    ensures
        r@ == lab_platform(),
{
    "    - platform: \""
}

fn lab_path_str() -> (r: &'static str)
    ensures
        r@ == lab_path(),
{
    "\n      path: \""
}

fn lab_nl_str() -> (r: &'static str)
    ensures
        r@ == lab_nl(),
{
    "\n"
}

fn quote_str() -> (r: &'static str)
    ensures
        r@ == seq!['"'],
{
    let r = "\"";
    proof {
        reveal_strlit("\"");
        assert(r@ =~= seq!['"']);
    }
    r
}

fn backslash_str() -> (r: &'static str)
    ensures
        r@ == seq!['\\'],
{
    let r = "\\";
    proof {
        reveal_strlit("\\");
        assert(r@ =~= seq!['\\']);
    }
    r
}

/// Consume the literal `lit` at position `i`, yielding the position after.
fn x_lit(s: &str, i: usize, lit: &str, n: usize) -> (r: Option<usize>)
    requires
        n == s@.len(),
        i <= n,
    ensures
        match r {
            Some(j) => i <= j <= n && p_lit(s@.skip(i as int), lit@) == Some(s@.skip(j as int)),
            None => p_lit(s@.skip(i as int), lit@) is None,
        },
{
    let m = lit.unicode_len();
    if m <= n - i {
        if matches_at(s, lit, i, n, m) {
            proof {
                assert(s@.skip(i as int).subrange(0, m as int) =~= s@.subrange(i as int, i + m));
                assert(s@.skip(i as int).skip(m as int) =~= s@.skip((i + m) as int));
            }
            Some(i + m)
        } else {
            proof {
                assert(s@.skip(i as int).subrange(0, m as int) =~= s@.subrange(i as int, i + m));
            }
            None
        }
    } else {
        assert(s@.skip(i as int).len() < lit@.len());
        None
    }
}

/// Consume a quoted value's body and closing quote from position `i`,
/// yielding the unescaped value and the position after.
fn x_qbody(s: &str, i: usize, n: usize) -> (r: Option<(String, usize)>)
    requires
        n == s@.len(),
        i <= n,
    ensures
        match r {
            Some(p) => i < p.1 <= n && p_qbody(s@.skip(i as int)) == Some(
                (p.0@, s@.skip(p.1 as int)),
            ),
            None => p_qbody(s@.skip(i as int)) is None,
        },
{
    let mut out = String::new();
    let mut cur: usize = i;
    proof {
        match p_qbody(s@.skip(i as int)) {
            Some((x, r)) => {
                assert(out@ + x =~= x);
            },
            None => {},
        }
    }
    loop
        invariant
            n == s@.len(),
            i <= cur <= n,
            p_qbody(s@.skip(i as int)) == qbody_prepend(out@, p_qbody(s@.skip(cur as int))),
        decreases n - cur,
    {
        if cur == n {
            assert(s@.skip(cur as int).len() == 0);
            return None;
        }
        let ghost rem = s@.skip(cur as int);
        assert(rem[0] == s@[cur as int]);
        let c = s.get_char(cur);
        if c == '"' {
            proof {
                assert(rem.drop_first() =~= s@.skip(cur + 1));
                assert(p_qbody(rem) == Some((Seq::<char>::empty(), s@.skip(cur + 1))));
                assert(out@ + Seq::<char>::empty() =~= out@);
            }
            return Some((out, cur + 1));
        } else if c == '\\' {
            if cur + 1 == n {
                assert(rem.len() < 2);
                return None;
            }
            assert(rem[1] == s@[cur + 1]);
            let c2 = s.get_char(cur + 1);
            if c2 == '\\' || c2 == '"' {
                let ghost out0 = out@;
                let piece = s.substring_char(cur + 1, cur + 2);
                assert(piece@ =~= seq![s@[cur + 1]]);
                out.append(piece);
                proof {
                    assert(rem.skip(2) =~= s@.skip(cur + 2));
                    assert(p_qbody(rem) == qbody_prepend(seq![rem[1]], p_qbody(s@.skip(cur + 2))));
                    match p_qbody(s@.skip(cur + 2)) {
                        Some((x, r)) => {
                            assert(out0 + (seq![rem[1]] + x) =~= out@ + x);
                        },
                        None => {},
                    }
                }
                cur = cur + 2;
            } else {
                assert(p_qbody(rem) is None);
                return None;
            }
        } else {
            let ghost out0 = out@;
            let piece = s.substring_char(cur, cur + 1);
            assert(piece@ =~= seq![s@[cur as int]]);
            out.append(piece);
            proof {
                assert(rem.drop_first() =~= s@.skip(cur + 1));
                assert(p_qbody(rem) == qbody_prepend(seq![rem[0]], p_qbody(s@.skip(cur + 1))));
                match p_qbody(s@.skip(cur + 1)) {
                    Some((x, r)) => {
                        assert(out0 + (seq![rem[0]] + x) =~= out@ + x);
                    },
                    None => {},
                }
            }
            cur = cur + 1;
        }
    }
}

/// Consume one location record from position `i`.
fn x_loc(s: &str, i: usize, n: usize) -> (r: Option<(PlatformPath, usize)>)
    requires
        n == s@.len(),
        i <= n,
    ensures
        match r {
            Some(p) => i < p.1 <= n && p_loc(s@.skip(i as int)) == Some(
                (p.0@, s@.skip(p.1 as int)),
            ),
            None => p_loc(s@.skip(i as int)) is None,
        },
{
    match x_lit(s, i, lab_platform_str(), n) {
        Some(j1) => match x_qbody(s, j1, n) {
            Some((plat, j2)) => match x_lit(s, j2, lab_path_str(), n) {
                Some(j3) => match x_qbody(s, j3, n) {
                    Some((path, j4)) => match x_lit(s, j4, lab_nl_str(), n) {
                        Some(j5) => {
                            let l = PlatformPath { platform: plat, path: path };
                            assert(l@ =~= (PlatformPathView {
                                platform: l.platform@,
                                path: l.path@,
                            }));
                            Some((l, j5))
                        },
                        None => None,
                    },
                    None => None,
                },
                None => None,
            },
            None => None,
        },
        None => None,
    }
}

/// Consume location records from position `i` for as long as one opens.
fn x_locs(s: &str, i: usize, n: usize) -> (r: Option<(Vec<PlatformPath>, usize)>)
    requires
        n == s@.len(),
        i <= n,
    ensures
        match r {
            Some(p) => i <= p.1 <= n && p_locs(s@.skip(i as int)) == Some(
                (locs_view(p.0@), s@.skip(p.1 as int)),
            ),
            None => p_locs(s@.skip(i as int)) is None,
        },
{
    let mut out: Vec<PlatformPath> = Vec::new();
    let mut cur: usize = i;
    proof {
        assert(locs_view(out@) =~= Seq::<PlatformPathView>::empty());
        match p_locs(s@.skip(i as int)) {
            Some((ls, r2)) => {
                assert(locs_view(out@) + ls =~= ls);
            },
            None => {},
        }
    }
    loop
        invariant
            n == s@.len(),
            i <= cur <= n,
            p_locs(s@.skip(i as int)) == locs_prepend(locs_view(out@), p_locs(s@.skip(cur as int))),
        decreases n - cur,
    {
        let ghost rem = s@.skip(cur as int);
        let probe = x_lit(s, cur, lab_platform_str(), n);
        if probe.is_none() {
            proof {
                assert(p_locs(rem) == Some((Seq::<PlatformPathView>::empty(), rem)));
                assert(locs_view(out@) + Seq::<PlatformPathView>::empty() =~= locs_view(out@));
            }
            return Some((out, cur));
        }
        match x_loc(s, cur, n) {
            Some((l, j)) => {
                let ghost out0 = locs_view(out@);
                proof {
                    assert(s@.skip(j as int).len() < rem.len());
                    assert(p_locs(rem) == locs_prepend(seq![l@], p_locs(s@.skip(j as int))));
                }
                out.push(l);
                proof {
                    assert(locs_view(out@) =~= out0 + seq![l@]);
                    match p_locs(s@.skip(j as int)) {
                        Some((ls, r2)) => {
                            assert(out0 + (seq![l@] + ls) =~= locs_view(out@) + ls);
                        },
                        None => {},
                    }
                }
                cur = j;
            },
            None => {
                assert(p_locs(rem) is None);
                return None;
            },
        }
    }
}

/// Consume one entry record from position `i`.
fn x_entry(s: &str, i: usize, n: usize) -> (r: Option<(Config, usize)>)
    requires
        n == s@.len(),
        i <= n,
    ensures
        match r {
            Some(p) => i < p.1 <= n && p_entry(s@.skip(i as int)) == Some(
                (p.0@, s@.skip(p.1 as int)),
            ),
            None => p_entry(s@.skip(i as int)) is None,
        },
{
    match x_lit(s, i, lab_file_str(), n) {
        Some(j1) => match x_qbody(s, j1, n) {
            Some((file, j2)) => match x_lit(s, j2, lab_file_dir_str(), n) {
                Some(j3) => match x_qbody(s, j3, n) {
                    Some((file_dir, j4)) => match x_lit(s, j4, lab_paths_str(), n) {
                        Some(j5) => match x_locs(s, j5, n) {
                            Some((paths, j6)) => {
                                let c = Config { file: file, file_dir: file_dir, paths: paths };
                                assert(c@ =~= (ConfigView {
                                    file: c.file@,
                                    file_dir: c.file_dir@,
                                    paths: locs_view(c.paths@),
                                }));
                                Some((c, j6))
                            },
                            None => None,
                        },
                        None => None,
                    },
                    None => None,
                },
                None => None,
            },
            None => None,
        },
        None => None,
    }
}

/// Decode a manifest document. Yields the entries it encodes, in order,
/// or `Serialization` exactly when the text is not a manifest document.
pub fn import_entries(s: &str) -> (r: Result<Vec<Config>, CrabError>)
    ensures
        match r {
            Ok(v) => spec_decode(s@) == Some(cfgs_view(v@)),
            Err(e) => e == CrabError::Serialization && spec_decode(s@) is None,
        },
{
    let n = s.unicode_len();
    let mut out: Vec<Config> = Vec::new();
    let mut cur: usize = 0;
    proof {
        assert(s@.skip(0) =~= s@);
        assert(cfgs_view(out@) =~= Seq::<ConfigView>::empty());
        match p_entries(s@) {
            Some(es) => {
                assert(cfgs_view(out@) + es =~= es);
            },
            None => {},
        }
    }
    while cur < n
        invariant
            n == s@.len(),
            cur <= n,
            p_entries(s@) == entries_prepend(cfgs_view(out@), p_entries(s@.skip(cur as int))),
        decreases n - cur,
    {
        let ghost rem = s@.skip(cur as int);
        match x_entry(s, cur, n) {
            Some((e, j)) => {
                let ghost out0 = cfgs_view(out@);
                proof {
                    assert(s@.skip(j as int).len() < rem.len());
                    assert(p_entries(rem) == entries_prepend(
                        seq![e@],
                        p_entries(s@.skip(j as int)),
                    ));
                }
                out.push(e);
                proof {
                    assert(cfgs_view(out@) =~= out0 + seq![e@]);
                    match p_entries(s@.skip(j as int)) {
                        Some(es) => {
                            assert(out0 + (seq![e@] + es) =~= cfgs_view(out@) + es);
                        },
                        None => {},
                    }
                }
                cur = j;
            },
            None => {
                assert(rem.len() > 0);
                assert(p_entries(rem) is None);
                return Err(CrabError::Serialization);
            },
        }
    }
    proof {
        assert(s@.skip(cur as int).len() == 0);
        assert(p_entries(s@.skip(cur as int)) == Some(Seq::<ConfigView>::empty()));
        assert(cfgs_view(out@) + Seq::<ConfigView>::empty() =~= cfgs_view(out@));
    }
    Ok(out)
}

/// A string value's characters with `"` and `\` escaped.
fn escape_str(x: &str) -> (r: String)
    ensures
        r@ == escape(x@),
{
    let n = x.unicode_len();
    let mut out = String::new();
    let mut i: usize = 0;
    assert(x@.skip(0) =~= x@);
    while i < n
        invariant
            n == x@.len(),
            i <= n,
            out@ + escape(x@.skip(i as int)) == escape(x@),
        decreases n - i,
    {
        let ghost rem = x@.skip(i as int);
        assert(rem[0] == x@[i as int]);
        assert(rem.drop_first() =~= x@.skip(i + 1));
        let c = x.get_char(i);
        let piece = x.substring_char(i, i + 1);
        assert(piece@ =~= seq![x@[i as int]]);
        if c == '"' || c == '\\' {
            out.append(backslash_str());
            out.append(piece);
            assert(out@ + escape(x@.skip(i + 1)) =~= escape(x@));
        } else {
            out.append(piece);
            assert(out@ + escape(x@.skip(i + 1)) =~= escape(x@));
        }
        i = i + 1;
    }
    assert(escape(x@.skip(i as int)) == Seq::<char>::empty());
    assert(out@ =~= escape(x@));
    out
}

/// Encode a manifest: the entry records, one after another, in order.
pub fn export_entries(v: &Vec<Config>) -> (r: String)
    ensures
        r@ == spec_encode(cfgs_view(v@)),
{
    let ghost cv = cfgs_view(v@);
    let mut out = String::new();
    let mut i: usize = 0;
    proof {
        assert(cv.skip(0) =~= cv);
        assert(out@ + spec_encode(cv) =~= spec_encode(cv));
    }
    while i < v.len()
        invariant
            cv == cfgs_view(v@),
            i <= v.len(),
            cv.len() == v.len(),
            out@ + spec_encode(cv.skip(i as int)) == spec_encode(cv),
        decreases v.len() - i,
    {
        let ghost out0 = out@;
        let ghost e = cv[i as int];
        proof {
            assert(cv.skip(i as int)[0] == e);
            assert(cv.skip(i as int).drop_first() =~= cv.skip(i + 1));
            assert(spec_encode(cv.skip(i as int)) == enc_entry(e) + spec_encode(cv.skip(i + 1)));
        }
        out.append(lab_file_str());
        let ef = escape_str(v[i].file.as_str());
        out.append(ef.as_str());
        out.append(quote_str());
        out.append(lab_file_dir_str());
        let ed = escape_str(v[i].file_dir.as_str());
        out.append(ed.as_str());
        out.append(quote_str());
        out.append(lab_paths_str());
        proof {
            assert(e == v@[i as int]@);
            assert(out@ =~= out0 + (lab_file() + enc_str(e.file) + lab_file_dir() + enc_str(
                e.file_dir,
            ) + lab_paths()));
        }
        let ghost base = out@;
        let ghost ps = e.paths;
        let mut k: usize = 0;
        proof {
            assert(ps.skip(0) =~= ps);
            assert(base + enc_locs(ps) =~= base + enc_locs(ps));
        }
        while k < v[i].paths.len()
            invariant
                0 <= i < v.len(),
                cv == cfgs_view(v@),
                cv.len() == v.len(),
                e == cv[i as int],
                ps == e.paths,
                k <= v@[i as int].paths@.len(),
                ps.len() == v@[i as int].paths@.len(),
                out@ + enc_locs(ps.skip(k as int)) == base + enc_locs(ps),
            decreases v@[i as int].paths@.len() - k,
        {
            let ghost outk = out@;
            let ghost l = ps[k as int];
            proof {
                assert(ps.skip(k as int)[0] == l);
                assert(ps.skip(k as int).drop_first() =~= ps.skip(k + 1));
                assert(enc_locs(ps.skip(k as int)) == enc_loc(l) + enc_locs(ps.skip(k + 1)));
            }
            out.append(lab_platform_str());
            let ep = escape_str(v[i].paths[k].platform.as_str());
            out.append(ep.as_str());
            out.append(quote_str());
            out.append(lab_path_str());
            let eq = escape_str(v[i].paths[k].path.as_str());
            out.append(eq.as_str());
            out.append(quote_str());
            out.append(lab_nl_str());
            proof {
                assert(l == v@[i as int]@.paths[k as int]);
                assert(l == v@[i as int].paths@[k as int]@);
                assert(out@ =~= outk + enc_loc(l));
                assert(out@ + enc_locs(ps.skip(k + 1)) =~= base + enc_locs(ps));
            }
            k = k + 1;
        }
        proof {
            assert(ps.skip(k as int).len() == 0);
            assert(enc_locs(ps.skip(k as int)) == Seq::<char>::empty());
            assert(out@ =~= base + enc_locs(ps));
            assert(out@ =~= out0 + enc_entry(e));
            assert(out@ + spec_encode(cv.skip(i + 1)) =~= spec_encode(cv));
        }
        i = i + 1;
    }
    proof {
        assert(cv.skip(i as int).len() == 0);
        assert(spec_encode(cv.skip(i as int)) == Seq::<char>::empty());
        assert(out@ =~= spec_encode(cv));
    }
    out
}

} // verus!
