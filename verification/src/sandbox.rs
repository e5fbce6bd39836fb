//! Where the commands of a task run, and what they may touch.
//!
//! There are two kinds of sandbox: a directory of its own with a list of permitted
//! commands, and a container without network. The rules are here; directories and
//! processes are handled by the application.

use vstd::prelude::*;
use vstd::string::*;
use std::path::Path;
use crate::config::SandboxConfig;
use crate::number;
use crate::text;

verus! {

/// What a command left behind.
#[derive(Debug, Clone)]
pub struct CmdOutput {
    /// The exit code; none where the command was ended from outside.
    pub code: Option<i32>,
    pub stdout: String,
    pub stderr: String,
}

/// The output of a stream, under its name, unless it is blank.
pub open spec fn stream_part(label: Seq<char>, out: Seq<char>, cap: int) -> Seq<char> {
    if text::trim_of(out).len() == 0 {
        Seq::<char>::empty()
    } else {
        label + text::truncate_of(out, cap)
    }
}

pub open spec fn summary_of(o: CmdOutput, cap: int) -> Seq<char> {
    "退出码: "@ + (match o.code {
        Some(c) => number::dec(c as int),
        None => "被终止"@,
    }) + stream_part("\n[stdout] "@, o.stdout@, cap) + stream_part("\n[stderr] "@, o.stderr@, cap)
}

fn append_stream(s: &mut String, label: &str, out: &str, cap: usize)
    ensures
        final(s)@ == old(s)@ + stream_part(label@, out@, cap as int),
{
    if !text::trim(out).is_empty() {
        let ghost before = s@;
        s.append(label);
        s.append(text::truncate(out, cap).as_str());
        assert(s@ =~= before + stream_part(label@, out@, cap as int));
    } else {
        assert(s@ + Seq::<char>::empty() =~= s@);
    }
}

impl CmdOutput {
    /// Exit code and output in words, each stream cut at `cap` characters.
    pub fn summary(&self, cap: usize) -> (r: String)
        ensures
            r@ == summary_of(*self, cap as int),
    {
        let mut s = "退出码: ".to_owned();
        match self.code {
            Some(c) => {
                s.append(number::i64_text(c as i64).as_str());
            },
            None => {
                s.append("被终止");
            },
        }
        append_stream(&mut s, "\n[stdout] ", self.stdout.as_str(), cap);
        append_stream(&mut s, "\n[stderr] ", self.stderr.as_str(), cap);
        s
    }
}

// ---------- paths ----------

/// What becomes of a relative path.
pub enum PathEnd {
    /// It stays below the root, by way of these names.
    Inside(Seq<Seq<char>>),
    /// It is turned down for this reason.
    Refused(Seq<char>),
}

/// The path with forward slashes and without white space around it.
pub open spec fn slashed_of(rel: Seq<char>) -> Seq<char> {
    text::replace_char_of(text::trim_of(rel), '\\', '/')
}

/// A piece of a path that says nothing.
pub open spec fn is_idle(comp: Seq<char>) -> bool {
    comp == ""@ || comp == "."@
}

/// A piece of a path that names a drive.
pub open spec fn names_drive(comp: Seq<char>) -> bool {
    text::find_char_of(comp, ':') is Some
}

/// The first piece, from position `i` on, that leads upwards or to a drive.
pub open spec fn first_bad(comps: Seq<Seq<char>>, i: int) -> Option<int>
    decreases comps.len() - i,
{
    if i < 0 || i >= comps.len() {
        None
    } else if !is_idle(comps[i]) && (comps[i] == ".."@ || names_drive(comps[i])) {
        Some(i)
    } else {
        first_bad(comps, i + 1)
    }
}

/// The pieces that say something.
pub open spec fn telling(comps: Seq<Seq<char>>) -> Seq<Seq<char>>
    decreases comps.len(),
{
    if comps.len() == 0 {
        Seq::<Seq<char>>::empty()
    } else if is_idle(comps.last()) {
        telling(comps.drop_last())
    } else {
        telling(comps.drop_last()).push(comps.last())
    }
}

/// Where a relative path leads: never upwards, to a drive or to an absolute place.
pub open spec fn path_end(rel: Seq<char>) -> PathEnd {
    let p = slashed_of(rel);
    let comps = text::split_of(p, '/');
    if p.len() == 0 {
        PathEnd::Refused("路径不能为空"@)
    } else if p[0] == '/' {
        PathEnd::Refused("不允许绝对路径: "@ + p)
    } else if let Some(i) = first_bad(comps, 0) {
        if comps[i] == ".."@ {
            PathEnd::Refused("路径不允许包含 ..: "@ + p)
        } else {
            PathEnd::Refused("路径不允许包含盘符: "@ + p)
        }
    } else if telling(comps).len() == 0 {
        PathEnd::Refused("路径不能为空"@)
    } else {
        PathEnd::Inside(telling(comps))
    }
}

/// The names by which a relative path goes down from the root, or why it may not.
pub fn path_parts(rel: &str) -> (r: Result<Vec<String>, String>)
    ensures
        match r {
            Ok(parts) => path_end(rel@) == PathEnd::Inside(text::views(parts@)),
            Err(e) => path_end(rel@) == PathEnd::Refused(e@),
        },
{
    let p = text::replace_char(text::trim(rel), '\\', '/');
    if p.as_str().is_empty() {
        return Err("路径不能为空".to_owned());
    }
    let first: char = p.as_str().get_char(0);
    if first == '/' {
        let mut e = "不允许绝对路径: ".to_owned();
        e.append(p.as_str());
        return Err(e);
    }
    let comps = text::split(p.as_str(), '/');
    let ghost all = text::views(comps@);
    let mut parts: Vec<String> = Vec::new();
    let mut i: usize = 0;
    assert(text::views(parts@) =~= telling(all.take(0)));
    while i < comps.len()
        invariant
            i <= comps@.len(),
            all == text::views(comps@),
            all == text::split_of(p@, '/'),
            p@ == slashed_of(rel@),
            p@.len() > 0,
            p@[0] != '/',
            first_bad(all, 0) == first_bad(all, i as int),
            text::views(parts@) == telling(all.take(i as int)),
        decreases comps@.len() - i,
    {
        let c = comps[i].as_str();
        proof {
            assert(all[i as int] == c@);
            assert(all.take(i + 1).drop_last() == all.take(i as int));
            assert(all.take(i + 1).last() == c@);
            reveal_strlit("");
        }
        if c.is_empty() || text::same(c, ".") {
            proof {
                if c@.len() == 0 {
                    assert(c@ =~= ""@);
                }
            }
        } else if text::same(c, "..") {
            let mut e = "路径不允许包含 ..: ".to_owned();
            e.append(p.as_str());
            return Err(e);
        } else if text::find_char(c, ':').is_some() {
            let mut e = "路径不允许包含盘符: ".to_owned();
            e.append(p.as_str());
            return Err(e);
        } else {
            let ghost before = parts@;
            parts.push(c.to_owned());
            assert(text::views(parts@) =~= text::views(before).push(c@));
        }
        i += 1;
    }
    assert(all.take(all.len() as int) == all);
    assert(text::views(parts@).len() == parts@.len());
    if parts.len() == 0 {
        return Err("路径不能为空".to_owned());
    }
    Ok(parts)
}

/// A path below the root.
pub open spec fn below(root: Seq<char>, parts: Seq<Seq<char>>) -> Seq<char>
    decreases parts.len(),
{
    if parts.len() == 0 {
        root
    } else {
        below(root, parts.drop_last()) + "/"@ + parts.last()
    }
}

/// The place below `root` that a relative path names, or why it names none.
pub fn resolve_in_root(root: &str, rel: &str) -> (r: Result<String, String>)
    ensures
        match path_end(rel@) {
            PathEnd::Inside(parts) => r matches Ok(p) && p@ == below(root@, parts),
            PathEnd::Refused(why) => r matches Err(e) && e@ == why,
        },
{
    let parts = match path_parts(rel) {
        Ok(p) => p,
        Err(e) => {
            return Err(e);
        },
    };
    let ghost all = text::views(parts@);
    let mut s = root.to_owned();
    let mut i: usize = 0;
    while i < parts.len()
        invariant
            i <= parts@.len(),
            all == text::views(parts@),
            s@ == below(root@, all.take(i as int)),
        decreases parts@.len() - i,
    {
        proof {
            assert(all.take(i + 1).drop_last() == all.take(i as int));
            assert(all.take(i + 1).last() == parts@[i as int]@);
        }
        s.append("/");
        s.append(parts[i].as_str());
        i += 1;
    }
    assert(all.take(all.len() as int) == all);
    Ok(s)
}

/// The names of `path` begin with those of `root`.
pub open spec fn lies_in(path: Seq<Seq<char>>, root: Seq<Seq<char>>) -> bool {
    root.len() <= path.len() && path.take(root.len() as int) == root
}

/// Whether a place lies in another, both by their names from the top.
pub fn is_inside(path: &Vec<String>, root: &Vec<String>) -> (r: bool)
    ensures
        r == lies_in(text::views(path@), text::views(root@)),
{
    let ghost pv = text::views(path@);
    let ghost rv = text::views(root@);
    if root.len() > path.len() {
        return false;
    }
    let mut i: usize = 0;
    while i < root.len()
        invariant
            i <= root@.len() <= path@.len(),
            pv == text::views(path@),
            rv == text::views(root@),
            forall|k: int| 0 <= k < i ==> #[trigger] pv[k] == rv[k],
        decreases root@.len() - i,
    {
        if !text::same(path[i].as_str(), root[i].as_str()) {
            proof {
                assert(pv[i as int] != rv[i as int]);
                assert(pv.take(rv.len() as int)[i as int] == pv[i as int]);
            }
            return false;
        }
        i += 1;
    }
    assert(pv.take(rv.len() as int) =~= rv);
    true
}

/// The last word on a resolved place: it has to lie in the root.
pub fn confirm_inside(path: &Vec<String>, root: &Vec<String>, rel: &str) -> (r: Result<(), String>)
    ensures
        r is Ok <==> lies_in(text::views(path@), text::views(root@)),
        r matches Err(e) ==> e@ == "路径越出沙箱: "@ + slashed_of(rel@),
{
    if is_inside(path, root) {
        Ok(())
    } else {
        let mut e = "路径越出沙箱: ".to_owned();
        e.append(text::replace_char(text::trim(rel), '\\', '/').as_str());
        Err(e)
    }
}

/// How deep below its start a walk by some names ends; none where it leaves the start
/// on its way.
pub open spec fn walk_of(comps: Seq<Seq<char>>) -> Option<int>
    decreases comps.len(),
{
    if comps.len() == 0 {
        Some(0)
    } else {
        match walk_of(comps.drop_last()) {
            None => None,
            Some(depth) => if is_idle(comps.last()) {
                Some(depth)
            } else if comps.last() != ".."@ {
                Some(depth + 1)
            } else if depth > 0 {
                Some(depth - 1)
            } else {
                None
            },
        }
    }
}

/// A path that begins with a drive: a letter with a colon behind it.
pub open spec fn begins_with_drive(p: Seq<char>) -> bool {
    p.len() >= 2 && p[1] == ':' && ('a' <= p[0] <= 'z' || 'A' <= p[0] <= 'Z')
}

/// Why a name in the directory `dir` of a sandbox, itself perhaps a path, leads out of
/// the sandbox: it is absolute, begins with a drive, or goes up too far. On its way it
/// may go up as long as it stays inside.
pub open spec fn leads_out_of(dir: Seq<char>, name: Seq<char>) -> Option<Seq<char>> {
    let n = text::replace_char_of(name, '\\', '/');
    let p = dir + "/"@ + n;
    if n.len() > 0 && n[0] == '/' {
        Some("不允许绝对路径: "@ + n)
    } else if begins_with_drive(n) {
        Some("路径不允许包含盘符: "@ + n)
    } else if walk_of(text::split_of(p, '/')) is None {
        Some("路径越出沙箱: "@ + p)
    } else {
        None
    }
}

/// Whether a walk by the names on a path, which are separated by slashes, stays below
/// its start.
fn walk_stays(p: &str) -> (r: bool)
    ensures
        r == (walk_of(text::split_of(p@, '/')) is Some),
{
    let comps = text::split(p, '/');
    let ghost all = text::views(comps@);
    let mut depth: usize = 0;
    let mut stays = true;
    let mut i: usize = 0;
    while i < comps.len()
        invariant
            i <= comps@.len(),
            all == text::views(comps@),
            depth <= i,
            stays ==> walk_of(all.take(i as int)) == Some(depth as int),
            !stays ==> walk_of(all.take(i as int)) is None,
        decreases comps@.len() - i,
    {
        let c = comps[i].as_str();
        proof {
            assert(all.take(i + 1).drop_last() == all.take(i as int));
            assert(all.take(i + 1).last() == c@);
            reveal_strlit("");
            if c@.len() == 0 {
                assert(c@ =~= ""@);
            }
        }
        if c.is_empty() || text::same(c, ".") {
        } else if !text::same(c, "..") {
            depth += 1;
        } else if depth > 0 {
            depth -= 1;
        } else {
            stays = false;
        }
        i += 1;
    }
    assert(all.take(all.len() as int) == all);
    stays
}

/// Why a name in a directory of a sandbox leads out of the sandbox, if it does.
pub fn leads_out(dir: &str, name: &str) -> (r: Option<String>)
    ensures
        text::opt_view(r) == leads_out_of(dir@, name@),
{
    let n = text::replace_char(name, '\\', '/');
    let len: usize = n.as_str().unicode_len();
    if len > 0 && n.as_str().get_char(0) == '/' {
        let mut e = "不允许绝对路径: ".to_owned();
        e.append(n.as_str());
        return Some(e);
    }
    if len >= 2 && n.as_str().get_char(1) == ':' {
        let c: char = n.as_str().get_char(0);
        if ('a' <= c && c <= 'z') || ('A' <= c && c <= 'Z') {
            let mut e = "路径不允许包含盘符: ".to_owned();
            e.append(n.as_str());
            return Some(e);
        }
    }
    let mut p = dir.to_owned();
    p.append("/");
    p.append(n.as_str());
    if walk_stays(p.as_str()) {
        None
    } else {
        let mut e = "路径越出沙箱: ".to_owned();
        e.append(p.as_str());
        Some(e)
    }
}

// ---------- permitted commands ----------

/// A name that is no path: without separators, and neither `.` nor `..`.
pub open spec fn is_plain_name(s: Seq<char>) -> bool {
    &&& s.len() > 0
    &&& s != "."@
    &&& s != ".."@
    &&& forall|i: int| 0 <= i < s.len() ==> #[trigger] s[i] != '/' && s[i] != '\\' && s[i] != ':'
}

/// The path of a share, which is read differently from platform to platform.
pub open spec fn is_share(path: Seq<char>) -> bool {
    text::begins(text::replace_char_of(path, '\\', '/'), "//"@)
}

/// The last of some names; none where they lead upwards at their end.
pub open spec fn last_of(names: Seq<Seq<char>>) -> Option<Seq<char>> {
    if names.len() == 0 || names.last() == ".."@ {
        None
    } else {
        Some(names.last())
    }
}

/// The names on a path that are separated by slashes.
pub open spec fn slash_names(path: Seq<char>) -> Seq<Seq<char>> {
    telling(text::split_of(path, '/'))
}

/// The names on a path that are separated by slashes or backslashes.
pub open spec fn both_names(path: Seq<char>) -> Seq<Seq<char>> {
    slash_names(text::replace_char_of(path, '\\', '/'))
}

/// `name` may be the last name on a path. Empty pieces and single dots do not count, and
/// there is none where the path leads upwards at its end. A backslash separates names on
/// some platforms and belongs to a name on others. Nothing is fixed for a share, nor for
/// a path that ends in a name with a colon, which may be a drive.
pub open spec fn is_file_name(path: Seq<char>, name: Option<Seq<char>>) -> bool {
    let names = both_names(path);
    !is_share(path) && (names.len() == 0 || names.last() == ".."@ || is_plain_name(names.last()))
        ==> name == last_of(names) || name == last_of(slash_names(path))
}

/// `Path::file_name`, with `OsStr::to_string_lossy`: the last name on a path, where it
/// ends in one. Whether a backslash separates names depends on the platform, so one of
/// the two readings is claimed; what is a share or a drive does, too, and nothing is
/// said of shares, nor of a path that ends in a name with a colon.
#[verifier::external_body]
fn file_name(path: &str) -> (r: Option<String>)
    ensures
        is_file_name(path@, text::opt_view(r)),
{
    Path::new(path).file_name().map(|s| s.to_string_lossy().to_string())
}

/// `name` may be the last name on a path, or `default` where it has none.
pub open spec fn is_last_name(path: Seq<char>, default: Seq<char>, name: Seq<char>) -> bool {
    is_file_name(path, Some(name)) || (is_file_name(path, None) && name == default)
}

/// The last name on a path; `default` where it has none.
pub fn base_name(path: &str, default: &str) -> (r: String)
    ensures
        is_last_name(path@, default@, r@),
{
    match file_name(path) {
        Some(s) => s,
        None => default.to_owned(),
    }
}

/// The name of a command by which it is looked up: in lower case, without `.exe`.
pub open spec fn command_key(base: Seq<char>) -> Seq<char> {
    text::lowercase(
        text::trim_end_matches_of(text::trim_end_matches_of(base, ".exe"@), ".EXE"@),
    )
}

/// The permitted commands: the entries in lower case, empty ones left out.
pub open spec fn permitted(entries: Seq<Seq<char>>) -> Seq<Seq<char>>
    decreases entries.len(),
{
    if entries.len() == 0 {
        Seq::<Seq<char>>::empty()
    } else {
        let e = text::lowercase(text::trim_of(entries.last()));
        if e.len() == 0 {
            permitted(entries.drop_last())
        } else {
            permitted(entries.drop_last()).push(e)
        }
    }
}

/// Whether a command, by the last name on its path, may be run. An empty list permits
/// everything.
pub open spec fn is_permitted(allowlist: Seq<char>, base: Seq<char>) -> bool {
    let list = permitted(text::split_of(allowlist, ','));
    list.len() == 0 || list.contains(command_key(base))
}

/// The same in an ASCII list, of an ASCII name.
pub open spec fn ascii_key(base: Seq<char>) -> Seq<char> {
    text::ascii_lower(
        text::trim_end_matches_of(text::trim_end_matches_of(base, ".exe"@), ".EXE"@),
    )
}

pub open spec fn ascii_permitted(entries: Seq<Seq<char>>) -> Seq<Seq<char>>
    decreases entries.len(),
{
    if entries.len() == 0 {
        Seq::<Seq<char>>::empty()
    } else {
        let e = text::ascii_lower(text::trim_of(entries.last()));
        if e.len() == 0 {
            ascii_permitted(entries.drop_last())
        } else {
            ascii_permitted(entries.drop_last()).push(e)
        }
    }
}

pub open spec fn is_ascii_permitted(allowlist: Seq<char>, base: Seq<char>) -> bool {
    let list = ascii_permitted(text::split_of(allowlist, ','));
    list.len() == 0 || list.contains(ascii_key(base))
}

/// What is permitted among ASCII texts does not rest on the tables of Unicode.
pub open spec fn reads_as_ascii(r: Result<String, String>, allowlist: Seq<char>, base: Seq<char>) -> bool {
    text::is_ascii_text(allowlist) && text::is_ascii_text(base) ==> (r is Ok <==> is_ascii_permitted(
        allowlist,
        base,
    ))
}

pub open spec fn command_refusal(allowlist: Seq<char>, cmd: Seq<char>) -> Seq<char> {
    "命令「"@ + cmd + "」不在白名单内(允许: "@ + allowlist + ")"@
}

/// What the check of a command comes to, `cmd` being trimmed and `base` its last name.
pub open spec fn is_check_result(
    r: Result<String, String>,
    allowlist: Seq<char>,
    cmd: Seq<char>,
    base: Seq<char>,
) -> bool {
    if is_permitted(allowlist, base) {
        r matches Ok(b) && b@ == base
    } else {
        r matches Err(e) && e@ == command_refusal(allowlist, cmd)
    }
}

/// Checks a command whose last name is known.
pub fn check_base(allowlist: &str, cmd: &str, base: String) -> (r: Result<String, String>)
    ensures
        is_check_result(r, allowlist@, cmd@, base@),
        reads_as_ascii(r, allowlist@, base@),
{
    let key = text::to_lowercase(
        text::trim_end_matches(text::trim_end_matches(base.as_str(), ".exe"), ".EXE"),
    );
    let entries = text::split(allowlist, ',');
    let ghost all = text::views(entries@);
    let ghost plain = text::is_ascii_text(allowlist@) && text::is_ascii_text(base@);
    proof {
        if plain {
            text::lemma_split_ascii(allowlist@, ',');
            text::lemma_trim_matches_ascii(base@, ".exe"@);
            text::lemma_trim_matches_ascii(text::trim_end_matches_of(base@, ".exe"@), ".EXE"@);
        }
    }
    let mut any = false;
    let mut found = false;
    let mut i: usize = 0;
    while i < entries.len()
        invariant
            i <= entries@.len(),
            all == text::views(entries@),
            key@ == command_key(base@),
            plain ==> key@ == ascii_key(base@),
            plain ==> forall|k: int| 0 <= k < all.len() ==> text::is_ascii_text(#[trigger] all[k]),
            plain ==> permitted(all.take(i as int)) == ascii_permitted(all.take(i as int)),
            any == (permitted(all.take(i as int)).len() > 0),
            found == permitted(all.take(i as int)).contains(key@),
        decreases entries@.len() - i,
    {
        proof {
            assert(all[i as int] == entries@[i as int]@);
            if plain {
                assert(text::is_ascii_text(all[i as int]));
                text::lemma_trim_ascii(all[i as int]);
            }
        }
        let e = text::to_lowercase(text::trim(entries[i].as_str()));
        let ghost before = permitted(all.take(i as int));
        proof {
            assert(all.take(i + 1).drop_last() == all.take(i as int));
            assert(all.take(i + 1).last() == entries@[i as int]@);
        }
        if !e.as_str().is_empty() {
            any = true;
            assert(permitted(all.take(i + 1)) == before.push(e@));
            if text::same(e.as_str(), key.as_str()) {
                found = true;
                assert(before.push(e@)[before.len() as int] == key@);
            } else {
                proof {
                    if found {
                        let k = choose|k: int| 0 <= k < before.len() && before[k] == key@;
                        assert(before.push(e@)[k] == key@);
                    } else {
                        assert forall|k: int| 0 <= k < before.push(e@).len() implies before.push(
                            e@,
                        )[k] != key@ by {
                            if k < before.len() {
                                assert(before[k] == before.push(e@)[k]);
                            }
                        }
                    }
                }
            }
        }
        i += 1;
    }
    assert(all.take(all.len() as int) == all);
    if !any || found {
        Ok(base)
    } else {
        let mut m = "命令「".to_owned();
        m.append(cmd);
        m.append("」不在白名单内(允许: ");
        m.append(allowlist);
        m.append(")");
        Err(m)
    }
}

/// Checks that a command may be run; gives the name of the program.
pub fn check_cmd_allowlist(allowlist: &str, cmd: &str) -> (r: Result<String, String>)
    ensures
        text::trim_of(cmd@).len() == 0 ==> (r matches Err(e) && e@ == "命令不能为空"@),
        text::trim_of(cmd@).len() > 0 ==> exists|base: Seq<char>|
            #[trigger] is_check_result(r, allowlist@, text::trim_of(cmd@), base) && is_last_name(
                text::trim_of(cmd@),
                text::trim_of(cmd@),
                base,
            ) && reads_as_ascii(r, allowlist@, base),
{
    let cmd = text::trim(cmd);
    if cmd.is_empty() {
        return Err("命令不能为空".to_owned());
    }
    let base = base_name(cmd, cmd);
    check_base(allowlist, cmd, base)
}

// ---------- the two kinds of sandbox ----------

/// A program to be run.
pub struct Launch {
    pub program: String,
    pub args: Vec<String>,
    /// The directory to run it in.
    pub workdir: String,
    pub timeout_secs: u64,
}

pub struct LaunchView {
    pub program: Seq<char>,
    pub args: Seq<Seq<char>>,
    pub workdir: Seq<char>,
    pub timeout_secs: u64,
}

impl View for Launch {
    type V = LaunchView;

    open spec fn view(&self) -> LaunchView {
        LaunchView {
            program: self.program@,
            args: text::views(self.args@),
            workdir: self.workdir@,
            timeout_secs: self.timeout_secs,
        }
    }
}

/// A directory in which a command is to run.
pub struct Workdir {
    /// As it was given.
    pub given: String,
    /// With links followed.
    pub real: String,
    /// Whether it lies in the sandbox.
    pub inside: bool,
    /// Below the root of the sandbox, where it can be put so.
    pub relative: Option<String>,
}

pub open spec fn at_least_a_second(n: u64) -> u64 {
    if n < 1 {
        1
    } else {
        n
    }
}

/// What every sandbox can say of itself.
pub trait SandboxBackend {
    spec fn name_of(&self) -> Seq<char>;

    spec fn root_of(&self) -> Seq<char>;

    /// What is to be run for a command in a directory, or why not.
    spec fn is_plan(&self, r: Result<Launch, String>, wd: Workdir, cmd: Seq<char>, args: Seq<Seq<char>>) -> bool;

    /// The kind of the sandbox.
    fn name(&self) -> (r: &'static str)
        ensures
            r@ == self.name_of(),
    ;

    /// The directory that everything is confined to.
    fn root(&self) -> (r: &str)
        ensures
            r@ == self.root_of(),
    ;

    fn run_cmd(&self, wd: &Workdir, cmd: &str, args: &Vec<String>) -> (r: Result<Launch, String>)
        ensures
            self.is_plan(r, *wd, cmd@, text::views(args@)),
    ;
}

/// A directory of its own, with a list of permitted commands.
#[derive(Debug, Clone)]
pub struct JailBackend {
    pub root: String,
    pub cfg: SandboxConfig,
}

impl JailBackend {
    pub fn new(root: String, cfg: SandboxConfig) -> (r: JailBackend)
        ensures
            r.root == root,
            r.cfg == cfg,
    {
        JailBackend { root, cfg }
    }

    /// Whether the sandbox is ready: its working directory has to be there.
    pub fn activate(&self, has_workdir: bool) -> (r: Result<(), String>)
        ensures
            r is Ok <==> has_workdir,
            r matches Err(e) ==> e@ == "沙箱未搭建(work 目录缺失),请先执行 setup"@,
    {
        if has_workdir {
            Ok(())
        } else {
            Err("沙箱未搭建(work 目录缺失),请先执行 setup".to_owned())
        }
    }
}

/// A copy of a list of strings.
pub fn copy_strings(v: &Vec<String>) -> (r: Vec<String>)
    ensures
        text::views(r@) == text::views(v@),
{
    let mut r: Vec<String> = Vec::new();
    let mut i: usize = 0;
    while i < v.len()
        invariant
            i <= v@.len(),
            r@.len() == i,
            forall|k: int| 0 <= k < i ==> (#[trigger] r@[k])@ == v@[k]@,
        decreases v@.len() - i,
    {
        r.push(v[i].clone());
        i += 1;
    }
    assert(text::views(r@) =~= text::views(v@));
    r
}

/// What a jail makes of a permitted command.
pub open spec fn is_jail_launch(
    r: Result<Launch, String>,
    cfg: SandboxConfig,
    wd: Workdir,
    base: Seq<char>,
    args: Seq<Seq<char>>,
) -> bool {
    if wd.inside {
        r matches Ok(l) && l@ == (LaunchView {
            program: base,
            args,
            workdir: wd.real@,
            timeout_secs: at_least_a_second(cfg.cmd_timeout_secs),
        })
    } else {
        r matches Err(e) && e@ == "工作目录越出沙箱: "@ + wd.given@
    }
}

impl SandboxBackend for JailBackend {
    open spec fn name_of(&self) -> Seq<char> {
        "jail"@
    }

    open spec fn root_of(&self) -> Seq<char> {
        self.root@
    }

    /// The command is checked first, the directory after it.
    open spec fn is_plan(
        &self,
        r: Result<Launch, String>,
        wd: Workdir,
        cmd: Seq<char>,
        args: Seq<Seq<char>>,
    ) -> bool {
        let t = text::trim_of(cmd);
        if t.len() == 0 {
            r matches Err(e) && e@ == "命令不能为空"@
        } else {
            exists|base: Seq<char>|
                {
                    &&& is_last_name(t, t, base)
                    &&& if #[trigger] is_permitted(self.cfg.cmd_allowlist@, base) {
                        is_jail_launch(r, self.cfg, wd, base, args)
                    } else {
                        r matches Err(e) && e@ == command_refusal(self.cfg.cmd_allowlist@, t)
                    }
                }
        }
    }

    fn name(&self) -> (r: &'static str) {
        "jail"
    }

    fn root(&self) -> (r: &str) {
        self.root.as_str()
    }

    fn run_cmd(&self, wd: &Workdir, cmd: &str, args: &Vec<String>) -> (r: Result<Launch, String>) {
        let checked = check_cmd_allowlist(self.cfg.cmd_allowlist.as_str(), cmd);
        let ghost t = text::trim_of(cmd@);
        let ghost list = self.cfg.cmd_allowlist@;
        let ghost base = choose|base: Seq<char>| #[trigger]
            is_check_result(checked, list, t, base) && is_last_name(t, t, base);
        match checked {
            Err(e) => {
                proof {
                    if t.len() > 0 {
                        assert(!is_permitted(list, base));
                    }
                }
                Err(e)
            },
            Ok(program) => {
                assert(is_permitted(list, base));
                if !wd.inside {
                    let mut e = "工作目录越出沙箱: ".to_owned();
                    e.append(wd.given.as_str());
                    return Err(e);
                }
                let timeout_secs: u64 = if self.cfg.cmd_timeout_secs < 1 {
                    1
                } else {
                    self.cfg.cmd_timeout_secs
                };
                Ok(
                    Launch {
                        program,
                        args: copy_strings(args),
                        workdir: wd.real.clone(),
                        timeout_secs,
                    },
                )
            },
        }
    }
}

/// A container without network, with the sandbox mounted in it.
#[derive(Debug, Clone)]
pub struct DockerBackend {
    pub root: String,
    pub cfg: SandboxConfig,
}

/// The image of the container.
pub open spec fn image_of(cfg: SandboxConfig) -> Seq<char> {
    let t = text::trim_of(cfg.docker_image@);
    if t.len() == 0 {
        "python:3.12-alpine"@
    } else {
        t
    }
}

/// The memory of the container.
pub open spec fn memory_of(cfg: SandboxConfig) -> Seq<char> {
    let t = text::trim_of(cfg.docker_memory@);
    if t.len() == 0 {
        "512m"@
    } else {
        t
    }
}

/// The directory inside the container.
pub open spec fn container_dir_of(relative: Option<Seq<char>>) -> Seq<char> {
    "/work/"@ + text::trim_start_matches_of(
        match relative {
            Some(p) => p,
            None => "work"@,
        },
        "/"@,
    )
}

/// How the container is started: thrown away afterwards, without network, with bounded
/// memory and one processor, and with nothing mounted but the sandbox.
pub open spec fn container_args(
    root: Seq<char>,
    cfg: SandboxConfig,
    relative: Option<Seq<char>>,
    cmd: Seq<char>,
) -> Seq<Seq<char>> {
    seq![
        "run"@,
        "--rm"@,
        "--network"@,
        "none"@,
        "-m"@,
        memory_of(cfg),
        "--cpus"@,
        "1"@,
        "-v"@,
        root + ":/work"@,
        "-w"@,
        container_dir_of(relative),
        image_of(cfg),
        cmd,
    ]
}

impl DockerBackend {
    pub fn new(root: String, cfg: SandboxConfig) -> (r: DockerBackend)
        ensures
            r.root == root,
            r.cfg == cfg,
    {
        DockerBackend { root, cfg }
    }

    pub fn image(&self) -> (r: &str)
        ensures
            r@ == image_of(self.cfg),
    {
        let t = text::trim(self.cfg.docker_image.as_str());
        if t.is_empty() {
            "python:3.12-alpine"
        } else {
            t
        }
    }

    /// The trial that docker is there.
    pub fn setup(&self) -> (r: Launch)
        ensures
            r@ == (LaunchView {
                program: "docker"@,
                args: seq!["version"@, "--format"@, "{{.Server.Version}}"@],
                workdir: self.root@,
                timeout_secs: 30,
            }),
    {
        let args: Vec<String> = vec![
            "version".to_owned(),
            "--format".to_owned(),
            "{{.Server.Version}}".to_owned(),
        ];
        assert(text::views(args@) =~= seq!["version"@, "--format"@, "{{.Server.Version}}"@]);
        Launch { program: "docker".to_owned(), args, workdir: self.root.clone(), timeout_secs: 30 }
    }

    pub fn setup_result(out: &CmdOutput) -> (r: Result<(), String>)
        ensures
            r is Ok <==> out.code == Some(0i32),
            r matches Err(e) ==> e@ == "Docker 不可用: "@ + summary_of(*out, 200),
    {
        if let Some(c) = out.code {
            if c == 0 {
                return Ok(());
            }
        }
        let mut e = "Docker 不可用: ".to_owned();
        e.append(out.summary(200).as_str());
        Err(e)
    }

    /// The fetching of the image.
    pub fn activate(&self) -> (r: Launch)
        ensures
            r@ == (LaunchView {
                program: "docker"@,
                args: seq!["pull"@, image_of(self.cfg)],
                workdir: self.root@,
                timeout_secs: 600,
            }),
    {
        let args: Vec<String> = vec!["pull".to_owned(), self.image().to_owned()];
        assert(text::views(args@) =~= seq!["pull"@, image_of(self.cfg)]);
        Launch { program: "docker".to_owned(), args, workdir: self.root.clone(), timeout_secs: 600 }
    }

    pub fn activate_result(out: &CmdOutput) -> (r: Result<(), String>)
        ensures
            r is Ok <==> out.code == Some(0i32),
            r matches Err(e) ==> e@ == "拉取镜像失败: "@ + summary_of(*out, 300),
    {
        if let Some(c) = out.code {
            if c == 0 {
                return Ok(());
            }
        }
        let mut e = "拉取镜像失败: ".to_owned();
        e.append(out.summary(300).as_str());
        Err(e)
    }
}

impl SandboxBackend for DockerBackend {
    open spec fn name_of(&self) -> Seq<char> {
        "docker"@
    }

    open spec fn root_of(&self) -> Seq<char> {
        self.root@
    }

    open spec fn is_plan(
        &self,
        r: Result<Launch, String>,
        wd: Workdir,
        cmd: Seq<char>,
        args: Seq<Seq<char>>,
    ) -> bool {
        if text::trim_of(cmd).len() == 0 {
            r matches Err(e) && e@ == "命令不能为空"@
        } else {
            r matches Ok(l) && l@ == (LaunchView {
                program: "docker"@,
                args: container_args(self.root@, self.cfg, text::opt_view(wd.relative), cmd) + args,
                workdir: self.root@,
                timeout_secs: at_least_a_second(self.cfg.cmd_timeout_secs),
            })
        }
    }

    fn name(&self) -> (r: &'static str) {
        "docker"
    }

    fn root(&self) -> (r: &str) {
        self.root.as_str()
    }

    fn run_cmd(&self, wd: &Workdir, cmd: &str, args: &Vec<String>) -> (r: Result<Launch, String>) {
        if text::trim(cmd).is_empty() {
            return Err("命令不能为空".to_owned());
        }
        let t = text::trim(self.cfg.docker_memory.as_str());
        let memory = if t.is_empty() {
            "512m"
        } else {
            t
        };
        let rel = match &wd.relative {
            Some(p) => p.as_str(),
            None => "work",
        };
        let mut dir = "/work/".to_owned();
        dir.append(text::trim_start_matches(rel, "/"));
        let mut mount = self.root.clone();
        mount.append(":/work");
        let mut all: Vec<String> = vec![
            "run".to_owned(),
            "--rm".to_owned(),
            "--network".to_owned(),
            "none".to_owned(),
            "-m".to_owned(),
            memory.to_owned(),
            "--cpus".to_owned(),
            "1".to_owned(),
            "-v".to_owned(),
            mount,
            "-w".to_owned(),
            dir,
            self.image().to_owned(),
            cmd.to_owned(),
        ];
        let ghost head = container_args(self.root@, self.cfg, text::opt_view(wd.relative), cmd@);
        assert(text::views(all@) =~= head);
        let mut i: usize = 0;
        assert(head + text::views(args@).take(0) =~= head);
        while i < args.len()
            invariant
                i <= args@.len(),
                text::views(all@) == head + text::views(args@).take(i as int),
            decreases args@.len() - i,
        {
            let ghost before = all@;
            all.push(args[i].clone());
            proof {
                assert(text::views(all@) =~= text::views(before).push(args@[i as int]@));
                assert(text::views(args@).take(i + 1) =~= text::views(args@).take(i as int).push(
                    args@[i as int]@,
                ));
                assert(text::views(all@) =~= head + text::views(args@).take(i + 1));
            }
            i += 1;
        }
        assert(text::views(args@).take(args@.len() as int) =~= text::views(args@));
        let timeout_secs: u64 = if self.cfg.cmd_timeout_secs < 1 {
            1
        } else {
            self.cfg.cmd_timeout_secs
        };
        Ok(Launch { program: "docker".to_owned(), args: all, workdir: self.root.clone(), timeout_secs })
    }
}

/// A sandbox of either kind.
#[derive(Debug, Clone)]
pub enum Backend {
    Jail(JailBackend),
    Docker(DockerBackend),
}

/// The sandbox of the configured kind: a container for `docker`, else a directory.
pub fn factory(backend: &str, cfg: SandboxConfig, task_root: String) -> (r: Result<Backend, String>)
    ensures
        r == Ok::<Backend, String>(
            if backend@ == "docker"@ {
                Backend::Docker(DockerBackend { root: task_root, cfg })
            } else {
                Backend::Jail(JailBackend { root: task_root, cfg })
            },
        ),
{
    if text::same(backend, "docker") {
        Ok(Backend::Docker(DockerBackend::new(task_root, cfg)))
    } else {
        Ok(Backend::Jail(JailBackend::new(task_root, cfg)))
    }
}

impl Backend {
    pub open spec fn name_of(self) -> Seq<char> {
        match self {
            Backend::Jail(b) => b.name_of(),
            Backend::Docker(b) => b.name_of(),
        }
    }

    pub open spec fn root_of(self) -> Seq<char> {
        match self {
            Backend::Jail(b) => b.root_of(),
            Backend::Docker(b) => b.root_of(),
        }
    }

    pub fn name(&self) -> (r: &'static str)
        ensures
            r@ == self.name_of(),
    {
        match self {
            Backend::Jail(b) => b.name(),
            Backend::Docker(b) => b.name(),
        }
    }

    pub fn root(&self) -> (r: &str)
        ensures
            r@ == self.root_of(),
    {
        match self {
            Backend::Jail(b) => b.root(),
            Backend::Docker(b) => b.root(),
        }
    }

    pub fn run_cmd(&self, wd: &Workdir, cmd: &str, args: &Vec<String>) -> (r: Result<Launch, String>)
        ensures
            match *self {
                Backend::Jail(b) => b.is_plan(r, *wd, cmd@, text::views(args@)),
                Backend::Docker(b) => b.is_plan(r, *wd, cmd@, text::views(args@)),
            },
    {
        match self {
            Backend::Jail(b) => b.run_cmd(wd, cmd, args),
            Backend::Docker(b) => b.run_cmd(wd, cmd, args),
        }
    }
}

// ---------- the end of a command ----------

/// How a command ended.
pub enum CmdEnd {
    Exited(Option<i32>),
    /// Waiting for it failed.
    Lost(String),
    /// It took too long, this many seconds, and was ended.
    TimedOut(u64),
}

pub open spec fn is_cmd_result(
    r: Result<CmdOutput, String>,
    end: CmdEnd,
    timeout_secs: u64,
    stdout: Seq<char>,
    stderr: Seq<char>,
) -> bool {
    match end {
        CmdEnd::Exited(code) => r matches Ok(o) && o.code == code && o.stdout@ == stdout && o.stderr@
            == stderr,
        CmdEnd::Lost(why) => r matches Err(e) && e@ == "等待命令失败: "@ + why@,
        CmdEnd::TimedOut(secs) => r matches Err(e) && e@ == "命令超时("@ + number::dec(secs as int)
            + "s > "@ + number::dec(timeout_secs as int) + "s),已终止"@,
    }
}

/// What a command came to. The output of one that was ended is not given.
pub fn cmd_result(end: CmdEnd, timeout_secs: u64, stdout: String, stderr: String) -> (r: Result<
    CmdOutput,
    String,
>)
    ensures
        is_cmd_result(r, end, timeout_secs, stdout@, stderr@),
{
    match end {
        CmdEnd::Exited(code) => Ok(CmdOutput { code, stdout, stderr }),
        CmdEnd::Lost(why) => {
            let mut e = "等待命令失败: ".to_owned();
            e.append(why.as_str());
            Err(e)
        },
        CmdEnd::TimedOut(secs) => {
            let mut e = "命令超时(".to_owned();
            e.append(number::u64_text(secs).as_str());
            e.append("s > ");
            e.append(number::u64_text(timeout_secs).as_str());
            e.append("s),已终止");
            Err(e)
        },
    }
}

// ---------- laws ----------

/// A name behind a slash is a piece of its own.
proof fn lemma_split_tail(dir: Seq<char>, name: Seq<char>)
    requires
        forall|i: int| 0 <= i < name.len() ==> #[trigger] name[i] != '/',
    ensures
        text::split_of(dir + seq!['/'] + name, '/') == text::split_of(dir, '/').push(name),
    decreases name.len(),
{
    let s = dir + seq!['/'] + name;
    if name.len() == 0 {
        assert(s.drop_last() =~= dir);
        assert(name =~= Seq::<char>::empty());
    } else {
        let shorter = name.drop_last();
        lemma_split_tail(dir, shorter);
        assert(s.drop_last() =~= dir + seq!['/'] + shorter);
        let init = text::split_of(dir, '/').push(shorter);
        assert(init.last().push(s.last()) =~= name);
        assert(init.update(init.len() - 1, name) =~= text::split_of(dir, '/').push(name));
    }
}

/// A text without slashes is a single piece.
proof fn lemma_split_plain(name: Seq<char>)
    requires
        forall|i: int| 0 <= i < name.len() ==> #[trigger] name[i] != '/',
    ensures
        text::split_of(name, '/') == seq![name],
    decreases name.len(),
{
    if name.len() == 0 {
        assert(name =~= Seq::<char>::empty());
    } else {
        let shorter = name.drop_last();
        lemma_split_plain(shorter);
        assert(shorter.push(name.last()) =~= name);
        assert(seq![shorter].update(0, name) =~= seq![name]);
    }
}

/// A text without slashes behind another belongs to its last piece.
proof fn lemma_split_more(s: Seq<char>, tail: Seq<char>)
    requires
        forall|i: int| 0 <= i < tail.len() ==> #[trigger] tail[i] != '/',
    ensures
        text::split_of(s, '/').len() >= 1,
        text::split_of(s + tail, '/') == text::split_of(s, '/').drop_last().push(
            text::split_of(s, '/').last() + tail,
        ),
    decreases tail.len(),
{
    text::lemma_split_nonempty(s, '/');
    let pieces = text::split_of(s, '/');
    if tail.len() == 0 {
        assert(s + tail =~= s);
        assert(pieces.last() + tail =~= pieces.last());
        assert(pieces.drop_last().push(pieces.last()) =~= pieces);
    } else {
        let shorter = tail.drop_last();
        let whole = s + tail;
        lemma_split_more(s, shorter);
        assert(whole.drop_last() =~= s + shorter);
        let init = text::split_of(s + shorter, '/');
        assert(init.last().push(whole.last()) =~= pieces.last() + tail);
        assert(text::split_of(whole, '/') =~= pieces.drop_last().push(pieces.last() + tail));
    }
}

/// A name that says something is the last one on a path that ends in it.
proof fn lemma_last_name(path: Seq<char>, name: Seq<char>)
    requires
        text::split_of(path, '/').len() >= 1,
        text::split_of(path, '/').last() == name,
        !is_idle(name),
    ensures
        slash_names(path).len() > 0,
        slash_names(path).last() == name,
{
}

/// The last of the pieces that say something is one of them.
proof fn lemma_telling_last(comps: Seq<Seq<char>>)
    requires
        telling(comps).len() > 0,
    ensures
        comps.contains(telling(comps).last()),
        !is_idle(telling(comps).last()),
    decreases comps.len(),
{
    if is_idle(comps.last()) {
        lemma_telling_last(comps.drop_last());
        let name = telling(comps).last();
        let i = choose|i: int| 0 <= i < comps.len() - 1 && comps.drop_last()[i] == name;
        assert(comps[i] == name);
    } else {
        assert(comps[comps.len() - 1] == comps.last());
    }
}

/// A plain name is all there is on its path.
proof fn lemma_plain_alone(name: Seq<char>)
    requires
        is_plain_name(name),
    ensures
        !is_share(name),
        slash_names(name).len() > 0,
        slash_names(name).last() == name,
        both_names(name) == slash_names(name),
{
    reveal_strlit("");
    reveal_strlit("//");
    lemma_split_plain(name);
    assert(text::replace_char_of(name, '\\', '/') =~= name);
    lemma_last_name(name, name);
    if text::begins(name, "//"@) {
        assert(name.take(2)[0] == "//"@[0]);
        assert(name[0] == '/');
    }
}

/// A command by its path is judged as the bare command is: what may be run depends on
/// the last name alone, so that no directory lets a program pass.
pub proof fn law_allowlist_goes_by_last_name(dir: Seq<char>, name: Seq<char>, base: Seq<char>, bare: Seq<char>)
    requires
        is_plain_name(name),
        !is_share(dir + seq!['/'] + name),
        is_last_name(dir + seq!['/'] + name, dir + seq!['/'] + name, base),
        is_last_name(name, name, bare),
    ensures
        base == name,
        bare == name,
        forall|allowlist: Seq<char>| #[trigger]
            is_permitted(allowlist, base) == is_permitted(allowlist, bare),
{
    reveal_strlit("");
    let path = dir + seq!['/'] + name;
    let turned = text::replace_char_of(dir, '\\', '/');
    lemma_plain_alone(name);
    lemma_split_tail(dir, name);
    lemma_last_name(path, name);
    assert(text::replace_char_of(path, '\\', '/') =~= turned + seq!['/'] + name);
    lemma_split_tail(turned, name);
    lemma_last_name(turned + seq!['/'] + name, name);
}

/// Behind a backslash a command is judged as the bare command is, or, where a backslash
/// belongs to a name, as a longer name that ends in both.
pub proof fn law_backslash_keeps_the_end(dir: Seq<char>, name: Seq<char>, base: Seq<char>)
    requires
        is_plain_name(name),
        !is_share(dir + seq!['\\'] + name),
        is_last_name(dir + seq!['\\'] + name, dir + seq!['\\'] + name, base),
    ensures
        base == name || (base.len() > name.len() && base.skip(base.len() - name.len() - 1) == seq!['\\']
            + name),
{
    reveal_strlit("");
    reveal_strlit(".");
    reveal_strlit("..");
    let path = dir + seq!['\\'] + name;
    let tail = seq!['\\'] + name;
    let turned = text::replace_char_of(dir, '\\', '/');
    assert(text::replace_char_of(path, '\\', '/') =~= turned + seq!['/'] + name);
    lemma_split_tail(turned, name);
    lemma_last_name(turned + seq!['/'] + name, name);
    assert(path =~= dir + tail);
    lemma_split_more(dir, tail);
    let front = text::split_of(dir, '/').last();
    let longer = front + tail;
    assert(longer[front.len() as int] == '\\');
    assert(longer.len() >= 2 && ""@.len() == 0 && "."@.len() == 1);
    assert(longer != ".."@);
    lemma_last_name(path, longer);
    assert(longer.skip(longer.len() - name.len() - 1) =~= tail);
}

/// A plain name behind a directory of the sandbox stays there, but for two dots with
/// white space behind them.
proof fn lemma_plain_name_goes_down(name: Seq<char>)
    requires
        is_plain_name(name),
        text::trim_end_of(name) != ".."@,
    ensures
        path_end("downloads/"@ + name) is Inside,
{
    reveal_strlit("downloads/");
    reveal_strlit("downloads");
    reveal_strlit("");
    reveal_strlit(".");
    reveal_strlit("..");
    let dir = "downloads"@;
    let rel = "downloads/"@ + name;
    let t = text::trim_end_of(name);
    assert("downloads/"@ =~= dir + seq!['/']);
    assert(!text::is_space(rel[0]));
    assert("downloads/"@.last() == '/');
    text::lemma_trim_end_concat("downloads/"@, name);
    text::lemma_trim_end(name);
    assert(text::trim_of(rel) == "downloads/"@ + t);
    assert forall|i: int| 0 <= i < t.len() implies #[trigger] t[i] != '/' && t[i] != '\\' && t[i] != ':' by {
        assert(t[i] == name[i]);
    }
    let p = slashed_of(rel);
    assert(p =~= dir + seq!['/'] + t);
    lemma_split_tail(dir, t);
    lemma_split_plain(dir);
    let comps = text::split_of(p, '/');
    assert(comps =~= seq![dir, t]);
    text::lemma_char_absent(dir, ':', 0);
    text::lemma_char_absent(t, ':', 0);
    assert(!is_idle(dir)) by {
        assert(dir.len() == 9);
    }
    assert(dir != ".."@);
    reveal_with_fuel(first_bad, 3);
    assert(first_bad(comps, 0) is None);
    let first = seq![dir];
    assert(comps.drop_last() =~= first);
    assert(first.drop_last() =~= Seq::<Seq<char>>::empty());
    reveal_with_fuel(telling, 3);
    assert(telling(first).len() == 1);
    assert(telling(comps).len() > 0);
    assert(p[0] == 'd');
}

/// A single name: no path of several, and neither `.` nor `..`.
pub open spec fn is_single_name(s: Seq<char>) -> bool {
    &&& s.len() > 0
    &&& s != "."@
    &&& s != ".."@
    &&& forall|i: int| 0 <= i < s.len() ==> #[trigger] s[i] != '/'
}

/// The name under which a fetched file is kept is a single one, wherever the file comes
/// from. A plain one stays among the downloads (but for two dots with white space behind
/// them, which is a name to the system and leads upwards when it is trimmed); one that
/// is not plain has a backslash or a colon in it, where these belong to names.
pub proof fn law_fetched_name_stays_inside(path: Seq<char>, default: Seq<char>, name: Seq<char>)
    requires
        is_last_name(path, default, name),
        !is_share(path),
        is_plain_name(default),
        ({
            let names = both_names(path);
            names.len() == 0 || names.last() == ".."@ || is_plain_name(names.last())
        }),
    ensures
        is_single_name(name),
        is_plain_name(name) && text::trim_end_of(name) != ".."@ ==> path_end("downloads/"@ + name)
            is Inside,
        !is_plain_name(name) ==> Some(name) == last_of(slash_names(path)),
{
    reveal_strlit("");
    let comps = text::split_of(path, '/');
    if last_of(slash_names(path)) == Some(name) {
        text::lemma_split_pieces(path, '/');
        lemma_telling_last(comps);
        let i = choose|i: int| 0 <= i < comps.len() && comps[i] == name;
        assert(comps[i] == name);
        assert forall|k: int| 0 <= k < name.len() implies #[trigger] name[k] != '/' by {
            assert(comps[i][k] != '/');
        }
        if name.len() == 0 {
            assert(name =~= ""@);
        }
    }
    if is_plain_name(name) && text::trim_end_of(name) != ".."@ {
        lemma_plain_name_goes_down(name);
    }
}

/// A walk that stays below its start does so at every step of its way.
pub proof fn law_walk_never_leaves(comps: Seq<Seq<char>>, n: int)
    requires
        walk_of(comps) is Some,
        0 <= n <= comps.len(),
    ensures
        walk_of(comps.take(n)) is Some,
        walk_of(comps.take(n))->0 >= 0,
    decreases comps.len() - n,
{
    if n < comps.len() {
        law_walk_never_leaves(comps, n + 1);
        assert(comps.take(n + 1).drop_last() =~= comps.take(n));
        lemma_walk_depth(comps.take(n));
    } else {
        assert(comps.take(n) =~= comps);
        lemma_walk_depth(comps);
    }
}

proof fn lemma_walk_depth(comps: Seq<Seq<char>>)
    ensures
        walk_of(comps) matches Some(d) ==> d >= 0,
    decreases comps.len(),
{
    if comps.len() > 0 {
        lemma_walk_depth(comps.drop_last());
    }
}

/// Whether a program is written with `.exe` or without makes no difference.
pub proof fn law_exe_makes_no_difference(allowlist: Seq<char>, name: Seq<char>)
    ensures
        is_permitted(allowlist, name + ".exe"@) == is_permitted(allowlist, name),
        is_ascii_permitted(allowlist, name + ".exe"@) == is_ascii_permitted(allowlist, name),
{
    reveal_strlit(".exe");
    let s = name + ".exe"@;
    assert(s.skip(s.len() - 4) =~= ".exe"@);
    assert(s.take(s.len() - 4) =~= name);
}

proof fn lemma_listed(entries: Seq<Seq<char>>, i: int)
    requires
        0 <= i < entries.len(),
        text::trim_of(entries[i]).len() > 0,
    ensures
        ascii_permitted(entries).contains(text::ascii_lower(text::trim_of(entries[i]))),
    decreases entries.len(),
{
    let e = text::ascii_lower(text::trim_of(entries[i]));
    let init = entries.drop_last();
    let last = text::ascii_lower(text::trim_of(entries.last()));
    if i < init.len() {
        lemma_listed(init, i);
        let k = choose|k: int| 0 <= k < ascii_permitted(init).len() && ascii_permitted(init)[k] == e;
        if last.len() > 0 {
            assert(ascii_permitted(entries)[k] == e);
        }
    } else {
        assert(ascii_permitted(entries)[ascii_permitted(init).len() as int] == e);
    }
}

/// A command on the list may be run, in capitals or not, with `.exe` or without.
pub proof fn law_listed_command_is_permitted(allowlist: Seq<char>, i: int, name: Seq<char>)
    requires
        0 <= i < text::split_of(allowlist, ',').len(),
        text::trim_of(text::split_of(allowlist, ',')[i]).len() > 0,
        text::ascii_lower(text::trim_of(text::split_of(allowlist, ',')[i])) == ascii_key(name),
    ensures
        is_ascii_permitted(allowlist, name),
        is_ascii_permitted(allowlist, name + ".exe"@),
{
    lemma_listed(text::split_of(allowlist, ','), i);
    law_exe_makes_no_difference(allowlist, name);
}

proof fn lemma_telling(comps: Seq<Seq<char>>)
    requires
        first_bad(comps, 0) is None,
    ensures
        forall|i: int|
            0 <= i < telling(comps).len() ==> {
                &&& !is_idle(#[trigger] telling(comps)[i])
                &&& telling(comps)[i] != ".."@
                &&& !names_drive(telling(comps)[i])
                &&& comps.contains(telling(comps)[i])
            },
    decreases comps.len(),
{
    if comps.len() > 0 {
        let init = comps.drop_last();
        lemma_first_bad(comps, 0);
        lemma_no_bad(init, 0);
        lemma_telling(init);
        assert forall|i: int| 0 <= i < telling(comps).len() implies {
            &&& !is_idle(#[trigger] telling(comps)[i])
            &&& telling(comps)[i] != ".."@
            &&& !names_drive(telling(comps)[i])
            &&& comps.contains(telling(comps)[i])
        } by {
            if i < telling(init).len() {
                assert(telling(comps)[i] == telling(init)[i]);
                let k = choose|k: int| 0 <= k < init.len() && init[k] == telling(init)[i];
                assert(comps[k] == telling(comps)[i]);
            } else {
                assert(telling(comps)[i] == comps[comps.len() - 1]);
            }
        }
    }
}

proof fn lemma_first_bad(comps: Seq<Seq<char>>, from: int)
    requires
        0 <= from,
        first_bad(comps, from) is None,
    ensures
        forall|i: int|
            from <= i < comps.len() ==> is_idle(#[trigger] comps[i]) || !(comps[i] == ".."@
                || names_drive(comps[i])),
    decreases comps.len() - from,
{
    if from < comps.len() {
        lemma_first_bad(comps, from + 1);
    }
}

proof fn lemma_no_bad(comps: Seq<Seq<char>>, from: int)
    requires
        0 <= from,
        forall|i: int|
            from <= i < comps.len() ==> is_idle(#[trigger] comps[i]) || !(comps[i] == ".."@
                || names_drive(comps[i])),
    ensures
        first_bad(comps, from) is None,
    decreases comps.len() - from,
{
    if from < comps.len() {
        lemma_no_bad(comps, from + 1);
    }
}

/// A path that is let through goes down only: at least one name, and no name that is
/// empty, leads upwards, names a drive or holds a separator.
pub proof fn law_path_goes_down(rel: Seq<char>)
    ensures
        path_end(rel) matches PathEnd::Inside(parts) ==> {
            &&& parts.len() > 0
            &&& forall|i: int|
                0 <= i < parts.len() ==> {
                    &&& (#[trigger] parts[i]).len() > 0
                    &&& parts[i] != "."@
                    &&& parts[i] != ".."@
                    &&& !parts[i].contains(':')
                    &&& !parts[i].contains('/')
                    &&& !parts[i].contains('\\')
                }
        },
{
    let p = slashed_of(rel);
    let comps = text::split_of(p, '/');
    if let PathEnd::Inside(parts) = path_end(rel) {
        lemma_telling(comps);
        text::lemma_split_pieces(p, '/');
        assert forall|i: int| 0 <= i < parts.len() implies {
            &&& (#[trigger] parts[i]).len() > 0
            &&& parts[i] != "."@
            &&& parts[i] != ".."@
            &&& !parts[i].contains(':')
            &&& !parts[i].contains('/')
            &&& !parts[i].contains('\\')
        } by {
            let c = parts[i];
            let k = choose|k: int| 0 <= k < comps.len() && comps[k] == c;
            reveal_strlit("");
            if c.len() == 0 {
                assert(c =~= ""@);
            }
            text::lemma_char_from(c, ':', 0);
            if c.contains('/') {
                let j = choose|j: int| 0 <= j < c.len() && c[j] == '/';
                assert(text::split_of(p, '/')[k][j] != '/');
            }
            if c.contains('\\') {
                let j = choose|j: int| 0 <= j < c.len() && c[j] == '\\';
                text::lemma_split_from(p, '/');
                assert(text::split_of(p, '/')[k][j] == '\\');
                let m = choose|m: int| 0 <= m < p.len() && p[m] == '\\';
                assert(p[m] != '\\');
            }
        }
    }
}

/// A container never has network, whatever the settings and the command.
pub proof fn law_container_is_cut_off(
    root: Seq<char>,
    cfg: SandboxConfig,
    relative: Option<Seq<char>>,
    cmd: Seq<char>,
    args: Seq<Seq<char>>,
)
    ensures
        ({
            let all = container_args(root, cfg, relative, cmd) + args;
            all[0] == "run"@ && all[2] == "--network"@ && all[3] == "none"@ && all[9] == root + ":/work"@
                && all[13] == cmd && all.skip(14) == args
        }),
{
    let head = container_args(root, cfg, relative, cmd);
    assert((head + args).skip(14) =~= args);
}

/// The end of a command is told as it was: with its code, and each stream under its own
/// name, the one before the other.
pub proof fn law_end_is_told(o: CmdOutput, cap: int)
    requires
        cap >= 0,
    ensures
        o.code matches Some(c) ==> text::begins(summary_of(o, cap), "退出码: "@ + number::dec(c as int)),
        o.code is None ==> text::begins(summary_of(o, cap), "退出码: 被终止"@),
        text::trim_of(o.stdout@).len() > 0 && o.stdout@.len() <= cap ==> text::includes(
            summary_of(o, cap),
            "\n[stdout] "@ + o.stdout@,
        ),
        text::trim_of(o.stderr@).len() > 0 && o.stderr@.len() <= cap ==> text::ends(
            summary_of(o, cap),
            "\n[stderr] "@ + o.stderr@,
        ),
        text::trim_of(o.stdout@).len() > 0 && o.stdout@.len() > cap ==> text::includes(
            summary_of(o, cap),
            "\n[stdout] "@ + o.stdout@.take(cap) + "…"@,
        ),
        text::trim_of(o.stderr@).len() == 0 && text::trim_of(o.stdout@).len() == 0 ==> summary_of(o, cap) == "退出码: "@
            + (match o.code {
            Some(c) => number::dec(c as int),
            None => "被终止"@,
        }),
{
    reveal_strlit("退出码: 被终止");
    reveal_strlit("退出码: ");
    reveal_strlit("被终止");
    assert("退出码: 被终止"@ =~= "退出码: "@ + "被终止"@);
    let r = summary_of(o, cap);
    let head = "退出码: "@ + (match o.code {
        Some(c) => number::dec(c as int),
        None => "被终止"@,
    });
    let out = stream_part("\n[stdout] "@, o.stdout@, cap);
    let err = stream_part("\n[stderr] "@, o.stderr@, cap);
    assert(r =~= head + out + err);
    assert(r.take(head.len() as int) =~= head);
    text::law_occurrence(head, out, err);
    if text::trim_of(o.stdout@).len() > 0 && o.stdout@.len() > cap {
        assert(out =~= "\n[stdout] "@ + o.stdout@.take(cap) + "…"@);
    }
    text::law_occurrence(head + out, err, Seq::<char>::empty());
}

/// A path below a root begins with the root and goes on with its names, each behind a
/// slash.
pub proof fn law_place_is_below_its_root(root: Seq<char>, parts: Seq<Seq<char>>)
    requires
        parts.len() > 0,
    ensures
        text::begins(below(root, parts), root + "/"@ + parts[0]),
        text::ends(below(root, parts), "/"@ + parts.last()),
        below(root, parts).len() > root.len(),
    decreases parts.len(),
{
    reveal_strlit("/");
    let p = below(root, parts);
    let last = "/"@ + parts.last();
    assert(p.skip(p.len() - last.len()) =~= last);
    let front = parts.drop_last();
    let head = root + "/"@ + parts[0];
    if front.len() == 0 {
        assert(below(root, front) == root);
        assert(p.take(head.len() as int) =~= head);
    } else {
        law_place_is_below_its_root(root, front);
        assert(front[0] == parts[0]);
        assert(below(root, front).take(head.len() as int) == head);
        assert(p.take(head.len() as int) =~= below(root, front).take(head.len() as int));
    }
}

/// Absolute paths, and blank ones, are turned down.
pub proof fn law_absolute_paths_are_turned_down(rel: Seq<char>)
    ensures
        text::trim_of(rel).len() == 0 ==> path_end(rel) is Refused,
        text::trim_of(rel).len() > 0 && (text::trim_of(rel)[0] == '/' || text::trim_of(rel)[0] == '\\') ==> path_end(
            rel,
        ) is Refused,
{
    let t = text::trim_of(rel);
    if t.len() > 0 {
        text::law_characters_are_replaced_one_by_one(t, '\\', '/', 0);
    }
}

/// In a jail a permitted command runs in the very directory that was found to be inside,
/// with the arguments given and nothing more, and for as long as set, but a second at
/// least.
pub proof fn law_jail_runs_what_was_asked(
    r: Result<Launch, String>,
    cfg: SandboxConfig,
    wd: Workdir,
    base: Seq<char>,
    args: Seq<Seq<char>>,
)
    requires
        is_jail_launch(r, cfg, wd, base, args),
    ensures
        r is Ok <==> wd.inside,
        r matches Ok(l) ==> {
            &&& l.program@ == base
            &&& text::views(l.args@) == args
            &&& l.workdir@ == wd.real@
            &&& l.timeout_secs >= 1
            &&& cfg.cmd_timeout_secs >= 1 ==> l.timeout_secs == cfg.cmd_timeout_secs
        },
        r matches Err(e) ==> text::ends(e@, wd.given@),
{
    if let Err(e) = r {
        assert(e@.skip(e@.len() - wd.given@.len()) =~= wd.given@);
    }
}

/// A container is given the command and its arguments in their order, behind all that
/// confines it; its image and memory are those set.
pub proof fn law_container_runs_what_was_asked(
    root: Seq<char>,
    cfg: SandboxConfig,
    relative: Option<Seq<char>>,
    cmd: Seq<char>,
    args: Seq<Seq<char>>,
    i: int,
)
    ensures
        ({
            let all = container_args(root, cfg, relative, cmd) + args;
            let n = all.len() - args.len();
            &&& all[n - 1] == cmd
            &&& 0 <= i < args.len() ==> all[n + i] == args[i]
            &&& text::trim_of(cfg.docker_image@).len() > 0 ==> all[n - 2] == text::trim_of(cfg.docker_image@)
            &&& text::trim_of(cfg.docker_memory@).len() > 0 ==> exists|k: int|
                #![trigger all[k]]
                0 <= k && k + 1 < n && all[k] == "-m"@ && all[k + 1] == text::trim_of(cfg.docker_memory@)
            &&& text::begins(container_dir_of(relative), "/work/"@)
            &&& (relative matches Some(p) && (p.len() == 0 || p[0] != '/')) ==> container_dir_of(relative) == "/work/"@
                + relative->0
        }),
{
    reveal_strlit("/");
    let all = container_args(root, cfg, relative, cmd) + args;
    assert(all[4] == "-m"@ && all[5] == memory_of(cfg));
    let d = container_dir_of(relative);
    assert(d.take("/work/"@.len() as int) =~= "/work/"@);
    if let Some(p) = relative {
        if p.len() == 0 || p[0] != '/' {
            if text::begins(p, "/"@) {
                assert(p.take(1)[0] == p[0]);
            }
            assert(text::trim_start_matches_of(p, "/"@) == p);
        }
    }
}

/// What a command came to is handed on as it is; one that was lost or took too long has
/// failed, and the reason says why.
pub proof fn law_command_ends_as_it_ended(
    r: Result<CmdOutput, String>,
    end: CmdEnd,
    timeout_secs: u64,
    stdout: Seq<char>,
    stderr: Seq<char>,
)
    requires
        is_cmd_result(r, end, timeout_secs, stdout, stderr),
    ensures
        r is Ok <==> end is Exited,
        r matches Ok(o) ==> o.stdout@ == stdout && o.stderr@ == stderr,
        (match (r, end) {
            (Ok(o), CmdEnd::Exited(code)) => o.code == code,
            (Err(e), CmdEnd::Lost(why)) => text::ends(e@, why@),
            (Err(e), CmdEnd::TimedOut(secs)) => text::includes(e@, number::dec(secs as int)) && text::includes(
                e@,
                number::dec(timeout_secs as int),
            ),
            _ => false,
        }),
{
    match (r, end) {
        (Err(e), CmdEnd::Lost(why)) => {
            assert(e@.skip(e@.len() - why@.len()) =~= why@);
        },
        (Err(e), CmdEnd::TimedOut(secs)) => {
            let a = number::dec(secs as int);
            let b = number::dec(timeout_secs as int);
            assert(e@ =~= "命令超时("@ + a + ("s > "@ + b + "s),已终止"@));
            text::law_occurrence("命令超时("@, a, "s > "@ + b + "s),已终止"@);
            assert(e@ =~= ("命令超时("@ + a + "s > "@) + b + "s),已终止"@);
            text::law_occurrence("命令超时("@ + a + "s > "@, b, "s),已终止"@);
        },
        _ => {},
    }
}

/// Without a list everything is permitted, and what is not on a list of one is not.
pub proof fn law_list_decides(allowlist: Seq<char>, base: Seq<char>)
    requires
        forall|i: int| 0 <= i < allowlist.len() ==> #[trigger] allowlist[i] != ',',
    ensures
        text::lowercase(text::trim_of(allowlist)).len() == 0 ==> is_permitted(allowlist, base),
        text::lowercase(text::trim_of(allowlist)).len() > 0 ==> (is_permitted(allowlist, base) <==> text::lowercase(
            text::trim_of(allowlist),
        ) == command_key(base)),
{
    lemma_split_once(allowlist);
    let e = text::lowercase(text::trim_of(allowlist));
    let parts = seq![allowlist];
    assert(parts.drop_last() =~= Seq::<Seq<char>>::empty());
    reveal_with_fuel(permitted, 2);
    if e.len() > 0 {
        assert(permitted(parts) =~= seq![e]);
        assert(permitted(parts)[0] == e);
    }
}

/// A text without commas is a single entry.
proof fn lemma_split_once(s: Seq<char>)
    requires
        forall|i: int| 0 <= i < s.len() ==> #[trigger] s[i] != ',',
    ensures
        text::split_of(s, ',') == seq![s],
    decreases s.len(),
{
    if s.len() == 0 {
        assert(s =~= Seq::<char>::empty());
    } else {
        let shorter = s.drop_last();
        lemma_split_once(shorter);
        assert(shorter.push(s.last()) =~= s);
        assert(seq![shorter].update(0, s) =~= seq![s]);
    }
}

/// A name leads out of a sandbox where it is absolute, names a drive, or climbs above the
/// root, and nowhere else.
pub proof fn law_names_that_lead_out(dir: Seq<char>, name: Seq<char>)
    ensures
        ({
            let n = text::replace_char_of(name, '\\', '/');
            &&& name.len() > 0 && (name[0] == '/' || name[0] == '\\') ==> leads_out_of(dir, name) is Some
            &&& name.len() >= 2 && name[1] == ':' && ('a' <= name[0] <= 'z' || 'A' <= name[0] <= 'Z') ==> leads_out_of(
                dir,
                name,
            ) is Some
            &&& leads_out_of(dir, name) is None ==> walk_of(text::split_of(dir + "/"@ + n, '/')) is Some
            &&& walk_of(text::split_of(dir + "/"@ + n, '/')) is Some && !(n.len() > 0 && n[0] == '/') && !(n.len() >= 2
                && n[1] == ':') ==> leads_out_of(dir, name) is None
        }),
{
    if name.len() > 0 {
        text::law_characters_are_replaced_one_by_one(name, '\\', '/', 0);
    }
    if name.len() > 1 {
        text::law_characters_are_replaced_one_by_one(name, '\\', '/', 1);
    }
}

/// A place lies in a root exactly where its names are those of the root and then some, or
/// none.
pub proof fn law_inside_is_below_the_root(root: Seq<Seq<char>>, rest: Seq<Seq<char>>, path: Seq<Seq<char>>)
    ensures
        lies_in(root + rest, root),
        lies_in(path, root) ==> exists|more: Seq<Seq<char>>| path == #[trigger] (root + more),
        path.len() < root.len() ==> !lies_in(path, root),
        lies_in(path, root) ==> forall|i: int| 0 <= i < root.len() ==> #[trigger] path[i] == root[i],
{
    assert((root + rest).take(root.len() as int) =~= root);
    if lies_in(path, root) {
        assert(path =~= root + path.skip(root.len() as int));
        assert forall|i: int| 0 <= i < root.len() implies #[trigger] path[i] == root[i] by {
            assert(path.take(root.len() as int)[i] == path[i]);
        }
    }
}

/// A path without a way out is let in, by way of its own names in their order: all but the
/// pieces that say nothing.
pub proof fn law_good_path_is_let_in(rel: Seq<char>, i: int)
    requires
        ({
            let p = slashed_of(rel);
            let comps = text::split_of(p, '/');
            &&& p.len() > 0 && p[0] != '/'
            &&& forall|k: int|
                0 <= k < comps.len() ==> (#[trigger] comps[k]) != ".."@ && !names_drive(comps[k])
            &&& 0 <= i < comps.len() && comps[i].len() > 0 && comps[i] != "."@
        }),
    ensures
        match path_end(rel) {
            PathEnd::Inside(parts) => parts.contains(text::split_of(slashed_of(rel), '/')[i]),
            PathEnd::Refused(_) => false,
        },
{
    reveal_strlit("");
    let comps = text::split_of(slashed_of(rel), '/');
    lemma_none_bad(comps, 0);
    lemma_telling_keeps(comps, i);
}

proof fn lemma_none_bad(comps: Seq<Seq<char>>, from: int)
    requires
        0 <= from <= comps.len(),
        forall|k: int| 0 <= k < comps.len() ==> (#[trigger] comps[k]) != ".."@ && !names_drive(comps[k]),
    ensures
        first_bad(comps, from) is None,
    decreases comps.len() - from,
{
    if from < comps.len() {
        lemma_none_bad(comps, from + 1);
    }
}

proof fn lemma_telling_keeps(comps: Seq<Seq<char>>, i: int)
    requires
        0 <= i < comps.len(),
        !is_idle(comps[i]),
    ensures
        telling(comps).contains(comps[i]),
    decreases comps.len(),
{
    let t = telling(comps);
    if i < comps.len() - 1 {
        let front = comps.drop_last();
        lemma_telling_keeps(front, i);
        let f = telling(front);
        let k = choose|k: int| 0 <= k < f.len() && f[k] == comps[i];
        assert(t[k] == comps[i]);
    } else {
        assert(t[t.len() - 1] == comps[i]);
    }
}

/// A command may be run exactly where the last name on its path is permitted, and it is
/// that program which runs; a refusal names the command and what is permitted.
pub proof fn law_only_permitted_commands_run(
    r: Result<String, String>,
    allowlist: Seq<char>,
    cmd: Seq<char>,
    base: Seq<char>,
)
    requires
        is_check_result(r, allowlist, cmd, base),
    ensures
        r is Ok <==> is_permitted(allowlist, base),
        r matches Ok(b) ==> b@ == base,
        r matches Err(e) ==> text::begins(e@, "命令「"@ + cmd + "」"@) && text::ends(e@, allowlist + ")"@),
{
    reveal_strlit("」");
    reveal_strlit("」不在白名单内(允许: ");
    if let Err(e) = r {
        let h = "命令「"@ + cmd + "」"@;
        assert(e@.take(h.len() as int) =~= h);
        let t = allowlist + ")"@;
        assert(e@.skip(e@.len() - t.len()) =~= t);
    }
}

} // verus!
