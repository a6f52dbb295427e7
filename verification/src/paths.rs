//! Path handling for the shared artifact repository and the tool's config
//! directory: home expansion, cross-platform absolute-path classification,
//! and the relative-store / resolve pair used for repository entries.
//!
//! Paths are plain strings. A native absolute path is one that starts with
//! `/`; Windows-style paths (`C:\...` or `C:/...`) are recognised only as
//! foreign legacy data and re-anchored by their final segment.

use vstd::prelude::*;
use crate::errors::CfgError;
use crate::strutil::all_ws;
use crate::strutil::is_prefix;
use crate::strutil::spec_slashed;
use crate::strutil::spec_trim;
use crate::strutil::starts_with_str;
use crate::strutil::trim_str;
use crate::strutil::replace_backslashes;

verus! {

/// An ASCII letter.
pub open spec fn is_ascii_alpha(c: char) -> bool {
    (65 <= c as u32 && c as u32 <= 90) || (97 <= c as u32 && c as u32 <= 122)
}

/// `s` looks like an absolute path on some platform: it starts with `/`,
/// or with a drive letter followed by `:` and a separator.
pub open spec fn spec_any_platform_absolute(s: Seq<char>) -> bool {
    (s.len() > 0 && s[0] == '/') || (s.len() >= 3 && is_ascii_alpha(s[0]) && s[1] == ':' && (s[2]
        == '\\' || s[2] == '/'))
}

/// Checks whether a stored path looks like an absolute path from any
/// platform, not only the one resolving it.
pub fn is_any_platform_absolute(path: &str) -> (r: bool)
    ensures
        r == spec_any_platform_absolute(path@),
{
    let len: usize = path.unicode_len();
    if len > 0 && path.get_char(0) == '/' {
        return true;
    }
    if len >= 3 {
        let c0 = path.get_char(0);
        let c1 = path.get_char(1);
        let c2 = path.get_char(2);
        let u0 = c0 as u32;
        if ((65 <= u0 && u0 <= 90) || (97 <= u0 && u0 <= 122)) && c1 == ':' && (c2 == '\\' || c2
            == '/') {
            return true;
        }
    }
    false
}

/// The separator set: `/` alone, or both `/` and `\` when `any` is set.
pub open spec fn sep_char(c: char, any: bool) -> bool {
    c == '/' || (any && c == '\\')
}

/// `s` without trailing separator characters.
pub open spec fn drop_trailing_seps(s: Seq<char>, any: bool) -> Seq<char>
    decreases s.len(),
{
    if s.len() > 0 && sep_char(s.last(), any) {
        drop_trailing_seps(s.drop_last(), any)
    } else {
        s
    }
}

/// The trailing run of non-separator characters of `s`.
pub open spec fn trailing_run(s: Seq<char>, any: bool) -> Seq<char>
    decreases s.len(),
{
    if s.len() > 0 && !sep_char(s.last(), any) {
        trailing_run(s.drop_last(), any).push(s.last())
    } else {
        Seq::empty()
    }
}

/// The final non-empty segment of `s`, or `None` when `s` holds nothing but
/// separators.
pub open spec fn spec_last_segment(s: Seq<char>, any: bool) -> Option<Seq<char>> {
    let t = drop_trailing_seps(s, any);
    if t.len() == 0 {
        Option::None
    } else {
        Option::Some(trailing_run(t, any))
    }
}

proof fn lemma_drop_trailing_seps_fixed(s: Seq<char>, e: int, any: bool)
    requires
        0 <= e <= s.len(),
        forall|j: int| e <= j < s.len() ==> sep_char(#[trigger] s[j], any),
        e > 0 ==> !sep_char(s[e - 1], any),
    ensures
        drop_trailing_seps(s, any) == s.take(e),
    decreases s.len() - e,
{
    if e == s.len() {
        assert(s.take(e) =~= s);
        if e > 0 {
            assert(s.last() == s[e - 1]);
        }
    } else {
        assert(sep_char(s.last(), any));
        lemma_drop_trailing_seps_fixed(s.drop_last(), e, any);
        assert(s.drop_last().take(e) =~= s.take(e));
    }
}

proof fn lemma_trailing_run_fixed(t: Seq<char>, b: int, any: bool)
    requires
        0 <= b <= t.len(),
        forall|j: int| b <= j < t.len() ==> !sep_char(#[trigger] t[j], any),
        b > 0 ==> sep_char(t[b - 1], any),
    ensures
        trailing_run(t, any) == t.skip(b),
    decreases t.len() - b,
{
    if b == t.len() {
        assert(t.skip(b) =~= Seq::<char>::empty());
        if b > 0 {
            assert(t.last() == t[b - 1]);
        }
    } else {
        assert(!sep_char(t.last(), any));
        lemma_trailing_run_fixed(t.drop_last(), b, any);
        assert(t.drop_last().skip(b).push(t.last()) =~= t.skip(b));
    }
}

/// Returns the final non-empty segment of `s`, splitting on `/` alone or,
/// with `any` set, on both separators.
pub fn last_segment_str(s: &str, any: bool) -> (r: Option<String>)
    ensures
        r is Some <==> spec_last_segment(s@, any) is Some,
        r matches Some(t) ==> t@ == spec_last_segment(s@, any).unwrap(),
{
    let len: usize = s.unicode_len();
    let mut e: usize = len;
    while e > 0 && sep_at(s, e - 1, any)
        invariant
            len == s@.len(),
            e <= len,
            forall|j: int| e <= j < len ==> sep_char(#[trigger] s@[j], any),
        decreases e,
    {
        e -= 1;
    }
    proof {
        lemma_drop_trailing_seps_fixed(s@, e as int, any);
    }
    if e == 0 {
        return Option::None;
    }
    let mut b: usize = e;
    while b > 0 && !sep_at(s, b - 1, any)
        invariant
            len == s@.len(),
            b <= e <= len,
            forall|j: int| b <= j < e ==> !sep_char(#[trigger] s@[j], any),
        decreases b,
    {
        b -= 1;
    }
    let seg = s.substring_char(b, e);
    proof {
        let t = s@.take(e as int);
        assert(forall|j: int| b <= j < t.len() ==> !sep_char(#[trigger] t[j], any));
        if b > 0 {
            assert(t[b - 1] == s@[b - 1]);
        }
        lemma_trailing_run_fixed(t, b as int, any);
        assert(t.skip(b as int) =~= s@.subrange(b as int, e as int));
    }
    Option::Some(seg.to_owned())
}

/// Decides `sep_char` at one index.
fn sep_at(s: &str, i: usize, any: bool) -> (r: bool)
    requires
        i < s@.len(),
    ensures
        r == sep_char(s@[i as int], any),
{
    let c = s.get_char(i);
    c == '/' || (any && c == '\\')
}

/// Joining a child onto a directory: a `/` is inserted unless the directory
/// is empty or already ends with one.
pub open spec fn spec_join(dir: Seq<char>, child: Seq<char>) -> Seq<char> {
    if dir.len() == 0 {
        child
    } else if dir.last() == '/' {
        dir + child
    } else {
        dir + seq!['/'] + child
    }
}

/// Joins a child path onto a directory.
pub fn join_path(dir: &str, child: &str) -> (r: String)
    ensures
        r@ == spec_join(dir@, child@),
{
    let dlen: usize = dir.unicode_len();
    let mut out = dir.to_owned();
    if dlen == 0 {
        return child.to_owned();
    }
    if dir.get_char(dlen - 1) != '/' {
        out.append("/");
        proof {
            reveal_strlit("/");
            assert("/"@ =~= seq!['/']);
        }
    }
    out.append(child);
    proof {
        assert(out@ =~= spec_join(dir@, child@));
    }
    out
}

/// `central` is a directory prefix of `p`: they are equal, or `p`
/// continues with a separator right after it, or `central` itself ends in
/// one (a trailing-slash directory is already separator-terminated).
pub open spec fn under_dir(p: Seq<char>, central: Seq<char>) -> bool {
    is_prefix(central, p) && (p.len() == central.len() || p[central.len() as int] == '/' || (
    central.len() > 0 && central[central.len() - 1] == '/'))
}

/// `s` without leading `/` characters.
pub open spec fn drop_leading_slashes(s: Seq<char>) -> Seq<char>
    decreases s.len(),
{
    if s.len() > 0 && s[0] == '/' {
        drop_leading_slashes(s.drop_first())
    } else {
        s
    }
}

proof fn lemma_drop_leading_slashes_fixed(s: Seq<char>, i: int)
    requires
        0 <= i <= s.len(),
        forall|j: int| 0 <= j < i ==> #[trigger] s[j] == '/',
        i < s.len() ==> s[i] != '/',
    ensures
        drop_leading_slashes(s) == s.skip(i),
    decreases i,
{
    if i == 0 {
        assert(s.skip(0) =~= s);
    } else {
        assert(s[0] == '/');
        lemma_drop_leading_slashes_fixed(s.drop_first(), i - 1);
        assert(s.drop_first().skip(i - 1) =~= s.skip(i));
    }
}

/// What storing a path relative to the central directory yields: the
/// remainder under the directory with separators normalised, else the
/// path's own final segment.
pub open spec fn spec_to_relative(p: Seq<char>, central: Seq<char>) -> Seq<char> {
    if under_dir(p, central) {
        spec_slashed(drop_leading_slashes(p.skip(central.len() as int)))
    } else {
        match spec_last_segment(p, false) {
            Option::Some(seg) => seg,
            Option::None => spec_slashed(p),
        }
    }
}

/// Converts an absolute path to the form stored for the central repository:
/// if it lies under `central_dir` the prefix is stripped and backslashes
/// normalised to `/`; otherwise only the final path component is kept.
pub fn to_relative_central_path(absolute_path: &str, central_dir: &str) -> (r: String)
    ensures
        r@ == spec_to_relative(absolute_path@, central_dir@),
{
    let plen: usize = absolute_path.unicode_len();
    let clen: usize = central_dir.unicode_len();
    let prefixed = starts_with_str(absolute_path, central_dir);
    if prefixed && (plen == clen || absolute_path.get_char(clen) == '/' || (clen > 0
        && central_dir.get_char(clen - 1) == '/')) {
        let mut i: usize = clen;
        while i < plen && absolute_path.get_char(i) == '/'
            invariant
                plen == absolute_path@.len(),
                clen <= i <= plen,
                forall|j: int| clen <= j < i ==> #[trigger] absolute_path@[j] == '/',
            decreases plen - i,
        {
            i += 1;
        }
        let rest = absolute_path.substring_char(i, plen);
        proof {
            let tail = absolute_path@.skip(clen as int);
            assert(forall|j: int| 0 <= j < i - clen ==> #[trigger] tail[j] == '/') by {
                assert(forall|j: int|
                    0 <= j < i - clen ==> tail[j] == absolute_path@[j + clen as int]);
            }
            if i < plen {
                assert(tail[i - clen as int] == absolute_path@[i as int]);
            }
            lemma_drop_leading_slashes_fixed(tail, i - clen as int);
            assert(tail.skip(i - clen as int) =~= absolute_path@.subrange(i as int, plen as int));
        }
        replace_backslashes(rest)
    } else {
        match last_segment_str(absolute_path, false) {
            Option::Some(name) => name,
            Option::None => replace_backslashes(absolute_path),
        }
    }
}

/// How a stored repository path resolves against the current central
/// directory: taken as-is when it is a native absolute path that exists,
/// re-anchored by its final segment when it is foreign absolute legacy
/// data, and joined under the directory otherwise.
pub open spec fn spec_resolve_stored(
    stored: Seq<char>,
    central: Seq<char>,
    native_exists: bool,
) -> Seq<char> {
    if stored.len() > 0 && stored[0] == '/' && native_exists {
        stored
    } else if spec_any_platform_absolute(stored) {
        match spec_last_segment(stored, true) {
            Option::Some(name) => spec_join(central, name),
            Option::None => spec_join(central, stored),
        }
    } else {
        spec_join(central, stored)
    }
}

/// Resolves a stored central-repository path (relative, or legacy absolute
/// from any platform) to an absolute path under the current central
/// directory. `native_exists` says whether the stored text, read as a
/// native absolute path, names something that exists locally; the caller
/// supplies it since only the file system can answer.
pub fn resolve_skill_central_path(
    stored_path: &str,
    current_central_dir: &str,
    native_exists: bool,
) -> (r: String)
    ensures
        r@ == spec_resolve_stored(stored_path@, current_central_dir@, native_exists),
{
    let len: usize = stored_path.unicode_len();
    if len > 0 && stored_path.get_char(0) == '/' && native_exists {
        return stored_path.to_owned();
    }
    if is_any_platform_absolute(stored_path) {
        match last_segment_str(stored_path, true) {
            Option::Some(name) => join_path(current_central_dir, name.as_str()),
            Option::None => join_path(current_central_dir, stored_path),
        }
    } else {
        join_path(current_central_dir, stored_path)
    }
}

/// Picks the central repository directory: the stored setting when present
/// and non-empty, else the `skills` folder under the application data
/// directory.
pub fn resolve_central_repo_path(stored: &Option<String>, app_data_dir: &str) -> (r: String)
    ensures
        (stored matches Some(p) && p@.len() > 0) ==> r@ == stored.unwrap()@,
        !(stored matches Some(p) && p@.len() > 0) ==> r@ == spec_join(app_data_dir@, "skills"@),
{
    match stored {
        Option::Some(p) => {
            if p.as_str().unicode_len() > 0 {
                return p.clone();
            }
            join_path(app_data_dir, "skills")
        },
        Option::None => join_path(app_data_dir, "skills"),
    }
}

/// Law: storing a path that lies under the central directory and resolving
/// the stored text again yields the original path. The suffix must be a
/// genuine relative remainder: non-empty, not starting with a separator,
/// free of backslashes and not shaped like a foreign absolute path; the
/// central directory must be non-empty without a trailing slash.
pub proof fn lemma_store_resolve_round_trip(
    central: Seq<char>,
    sfx: Seq<char>,
    native_exists: bool,
)
    requires
        central.len() > 0,
        central.last() != '/',
        sfx.len() > 0,
        sfx[0] != '/',
        forall|i: int| 0 <= i < sfx.len() ==> #[trigger] sfx[i] != '\\',
        !spec_any_platform_absolute(sfx),
    ensures
        spec_resolve_stored(
            spec_to_relative(central + seq!['/'] + sfx, central),
            central,
            native_exists,
        ) == central + seq!['/'] + sfx,
{
    let p = central + seq!['/'] + sfx;
    assert(is_prefix(central, p)) by {
        assert(forall|i: int| 0 <= i < central.len() ==> p[i] == central[i]);
    }
    assert(p[central.len() as int] == '/');
    let tail = p.skip(central.len() as int);
    assert(tail =~= seq!['/'] + sfx);
    assert(tail[1] == sfx[0]);
    lemma_drop_leading_slashes_fixed(tail, 1);
    assert(tail.skip(1) =~= sfx);
    let rel = spec_to_relative(p, central);
    assert(rel =~= sfx) by {
        assert(spec_slashed(sfx) =~= sfx);
    }
    assert(spec_join(central, sfx) =~= p);
}

/// Whether a trimmed path asks for home expansion: it is `~` alone or
/// starts with `~/`.
pub open spec fn needs_home(t: Seq<char>) -> bool {
    t.len() >= 1 && t[0] == '~' && (t.len() == 1 || t[1] == '/')
}

/// Home expansion of a trimmed, non-empty path.
pub open spec fn spec_expand(t: Seq<char>, home: Seq<char>) -> Seq<char> {
    if t.len() == 1 && t[0] == '~' {
        home
    } else if needs_home(t) {
        spec_join(home, t.skip(2))
    } else {
        t
    }
}

/// Expands `~` or a `~/` prefix against a given home directory.
pub fn expand_home_with(trimmed: &str, home: &str) -> (r: String)
    ensures
        r@ == spec_expand(trimmed@, home@),
{
    let len: usize = trimmed.unicode_len();
    if len >= 1 && trimmed.get_char(0) == '~' {
        if len == 1 {
            return home.to_owned();
        }
        if trimmed.get_char(1) == '/' {
            let rest = trimmed.substring_char(2, len);
            proof {
                assert(rest@ =~= trimmed@.skip(2));
            }
            return join_path(home, rest);
        }
    }
    trimmed.to_owned()
}

/// The tool's config directory under a home directory.
pub fn get_codex_config_dir(home: &str) -> (r: String)
    ensures
        r@ == spec_join(home@, ".codex"@),
{
    join_path(home, ".codex")
}

/// The auth file's path under a home directory.
pub fn get_codex_auth_path(home: &str) -> (r: String)
    ensures
        r@ == spec_join(spec_join(home@, ".codex"@), "auth.json"@),
{
    let dir = get_codex_config_dir(home);
    join_path(dir.as_str(), "auth.json")
}

/// The config file's path under a home directory.
pub fn get_codex_config_path(home: &str) -> (r: String)
    ensures
        r@ == spec_join(spec_join(home@, ".codex"@), "config.toml"@),
{
    let dir = get_codex_config_dir(home);
    join_path(dir.as_str(), "config.toml")
}

/// The tool's config directory resolved against the machine's home
/// directory; fails when no home directory is known.
pub fn get_codex_config_dir_path() -> (r: Result<String, String>)
    ensures
        r matches Ok(s) ==> exists|h: Seq<char>| s@ == spec_join(h, ".codex"@),
{
    match home_dir_string() {
        Option::Some(home) => {
            let dir = get_codex_config_dir(home.as_str());
            proof {
                assert(dir@ == spec_join(home@, ".codex"@));
            }
            Result::Ok(dir)
        },
        Option::None => {
            let msg = "Failed to get home directory";
            Result::Err(msg.to_owned())
        },
    }
}

/// Relies on `dirs::home_dir`: the platform home directory, if any is
/// known; the result depends on the environment, so nothing is promised
/// of it.
#[verifier::external_body]
fn home_dir_string() -> (r: Option<String>) {
    dirs::home_dir().map(|p| p.to_string_lossy().to_string())
}

/// Expands `~` and `~/` in a storage path against the home directory.
/// Empty (all-whitespace) input is rejected; a path that does not start
/// with `~` passes through trimmed.
pub fn expand_home_path(input: &str) -> (r: Result<String, CfgError>)
    ensures
        all_ws(input@) <==> (r matches Err(e) && e == CfgError::InvalidPath),
        (!all_ws(input@) && !needs_home(spec_trim(input@))) ==> (r matches Ok(s) && s@
            == spec_trim(input@)),
        (!all_ws(input@) && needs_home(spec_trim(input@))) ==> (r matches Ok(s) ==> exists|
            h: Seq<char>,
        | s@ == spec_expand(spec_trim(input@), h)),
        (!all_ws(input@) && needs_home(spec_trim(input@))) ==> (r matches Err(e) ==> e
            == CfgError::IOFailure),
    {
    let trimmed = trim_str(input);
    proof {
        lemma_trim_empty_iff_all_ws(input@);
    }
    if trimmed.as_str().unicode_len() == 0 {
        return Result::Err(CfgError::InvalidPath);
    }
    let needs = trimmed.as_str().unicode_len() >= 1 && trimmed.as_str().get_char(0) == '~' && (
    trimmed.as_str().unicode_len() == 1 || trimmed.as_str().get_char(1) == '/');
    if !needs {
        return Result::Ok(trimmed);
    }
    match home_dir_string() {
        Option::Some(home) => {
            let expanded = expand_home_with(trimmed.as_str(), home.as_str());
            proof {
                assert(expanded@ == spec_expand(spec_trim(input@), home@));
            }
            Result::Ok(expanded)
        },
        Option::None => Result::Err(CfgError::IOFailure),
    }
}

/// A trimmed text is empty exactly when the original was all whitespace.
proof fn lemma_trim_empty_iff_all_ws(s: Seq<char>)
    ensures
        spec_trim(s).len() == 0 <==> all_ws(s),
    decreases s.len(),
{
    lemma_drop_leading_all_ws(s);
    lemma_drop_trailing_all_ws(crate::strutil::drop_leading_ws(s));
}

proof fn lemma_drop_leading_all_ws(s: Seq<char>)
    ensures
        crate::strutil::drop_leading_ws(s).len() == 0 <==> all_ws(s),
        all_ws(s) ==> crate::strutil::drop_trailing_ws(crate::strutil::drop_leading_ws(s)).len() == 0,
        !all_ws(s) ==> !crate::strutil::is_ws(crate::strutil::drop_leading_ws(s)[0]),
        !all_ws(s) ==> crate::strutil::drop_leading_ws(s).len() > 0,
    decreases s.len(),
{
    if s.len() > 0 && crate::strutil::is_ws(s[0]) {
        lemma_drop_leading_all_ws(s.drop_first());
        assert(all_ws(s.drop_first()) ==> all_ws(s)) by {
            if all_ws(s.drop_first()) {
                assert(forall|i: int|
                    0 <= i < s.len() ==> crate::strutil::is_ws(#[trigger] s[i])) by {
                    assert(forall|i: int|
                        1 <= i < s.len() ==> s[i] == s.drop_first()[i - 1]);
                }
            }
        }
        if all_ws(s) {
            assert(forall|i: int|
                0 <= i < s.drop_first().len() ==> crate::strutil::is_ws(
                    #[trigger] s.drop_first()[i],
                )) by {
                assert(forall|i: int|
                    0 <= i < s.drop_first().len() ==> s.drop_first()[i] == s[i + 1]);
            }
        }
    } else {
        assert(s.skip(0) =~= s);
        if s.len() > 0 {
            assert(!all_ws(s)) by {
                assert(!crate::strutil::is_ws(s[0]));
            }
        }
    }
}

proof fn lemma_drop_trailing_all_ws(s: Seq<char>)
    ensures
        crate::strutil::drop_trailing_ws(s).len() == 0 <==> all_ws(s),
    decreases s.len(),
{
    if s.len() > 0 && crate::strutil::is_ws(s.last()) {
        lemma_drop_trailing_all_ws(s.drop_last());
        if all_ws(s.drop_last()) {
            assert(forall|i: int|
                0 <= i < s.len() ==> crate::strutil::is_ws(#[trigger] s[i])) by {
                assert(forall|i: int| 0 <= i < s.len() - 1 ==> s[i] == s.drop_last()[i]);
                assert(s[s.len() - 1] == s.last());
            }
        } else {
            assert(exists|i: int| 0 <= i < s.drop_last().len() && !crate::strutil::is_ws(
                #[trigger] s.drop_last()[i],
            ));
            let w = choose|i: int|
                0 <= i < s.drop_last().len() && !crate::strutil::is_ws(
                    #[trigger] s.drop_last()[i],
                );
            assert(s[w] == s.drop_last()[w]);
        }
    } else {
        if s.len() > 0 {
            assert(!crate::strutil::is_ws(s[s.len() - 1]));
        }
    }
}

} // verus!
