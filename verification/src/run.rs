//! Running a command against a container: the working-directory check, the
//! transient materialization engine and its write sentinel, the mount spec
//! builder, and the atomic resolver-config write.

use vstd::prelude::*;
use vstd::string::*;
use crate::paths::{join_path, is_absolute, extension_of};
use crate::types::{Environ, Container, Command, WriteMode, Mount};
use crate::clean::{is_digit, all_digits, digits_val, parse_pid_digits, pid_of_name};

verus! {

// ---------------------------------------------------------------------------
// Decimal formatting, for the transient directory name.
// ---------------------------------------------------------------------------

pub open spec fn digit_char(d: int) -> char {
    if d == 0 {
        '0'
    } else if d == 1 {
        '1'
    } else if d == 2 {
        '2'
    } else if d == 3 {
        '3'
    } else if d == 4 {
        '4'
    } else if d == 5 {
        '5'
    } else if d == 6 {
        '6'
    } else if d == 7 {
        '7'
    } else if d == 8 {
        '8'
    } else {
        '9'
    }
}

/// The decimal digits of a nonnegative number, most significant first.
pub open spec fn dec_digits(n: int) -> Seq<char>
    decreases n,
{
    if n < 10 {
        seq![digit_char(n)]
    } else {
        dec_digits(n / 10) + seq![digit_char(n % 10)]
    }
}

/// The decimal digits, left-padded with zeros to at least `w` characters.
pub open spec fn padded_dec(n: int, w: int) -> Seq<char> {
    if dec_digits(n).len() >= w {
        dec_digits(n)
    } else {
        Seq::new((w - dec_digits(n).len()) as nat, |i: int| '0') + dec_digits(n)
    }
}

/// Each digit character carries its value in the ASCII code.
pub proof fn lemma_digit_char_val(d: int)
    requires
        0 <= d <= 9,
    ensures
        digit_char(d) as u32 == 48 + d,
        is_digit(digit_char(d)),
{
    if d == 0 {
        assert('0' as u32 == 48);
    } else if d == 1 {
        assert('1' as u32 == 49);
    } else if d == 2 {
        assert('2' as u32 == 50);
    } else if d == 3 {
        assert('3' as u32 == 51);
    } else if d == 4 {
        assert('4' as u32 == 52);
    } else if d == 5 {
        assert('5' as u32 == 53);
    } else if d == 6 {
        assert('6' as u32 == 54);
    } else if d == 7 {
        assert('7' as u32 == 55);
    } else if d == 8 {
        assert('8' as u32 == 56);
    } else {
        assert('9' as u32 == 57);
    }
}

pub proof fn lemma_dec_digits_wf(n: int)
    requires
        n >= 0,
    ensures
        dec_digits(n).len() >= 1,
        all_digits(dec_digits(n)),
        digits_val(dec_digits(n)) == n,
    decreases n,
{
    if n < 10 {
        lemma_digit_char_val(n);
        assert(dec_digits(n).drop_last() =~= Seq::<char>::empty());
        assert(digits_val(dec_digits(n)) == digits_val(Seq::<char>::empty()) * 10 + (dec_digits(
            n,
        ).last() as u32 - 48));
    } else {
        lemma_dec_digits_wf(n / 10);
        let hi = dec_digits(n / 10);
        let c = digit_char(n % 10);
        assert(dec_digits(n) == hi + seq![c]);
        assert((hi + seq![c]).drop_last() =~= hi);
        assert((hi + seq![c]).last() == c);
        assert(digits_val(dec_digits(n)) == digits_val(hi) * 10 + (c as u32 - 48));
        assert(0 <= n % 10 <= 9);
        lemma_digit_char_val(n % 10);
        assert((c as u32 - 48) == n % 10);
        assert forall|i: int| 0 <= i < dec_digits(n).len() implies is_digit(
            #[trigger] dec_digits(n)[i],
        ) by {
            if i < hi.len() {
                assert(dec_digits(n)[i] == hi[i]);
            } else {
                assert(dec_digits(n)[i] == c);
            }
        }
    }
}

fn digit_str(d: u64) -> (r: &'static str)
    requires
        d <= 9,
    ensures
        r@ == seq![digit_char(d as int)],
{
    proof {
        reveal_strlit("0");
        reveal_strlit("1");
        reveal_strlit("2");
        reveal_strlit("3");
        reveal_strlit("4");
        reveal_strlit("5");
        reveal_strlit("6");
        reveal_strlit("7");
        reveal_strlit("8");
        reveal_strlit("9");
    }
    let r = if d == 0 {
        "0"
    } else if d == 1 {
        "1"
    } else if d == 2 {
        "2"
    } else if d == 3 {
        "3"
    } else if d == 4 {
        "4"
    } else if d == 5 {
        "5"
    } else if d == 6 {
        "6"
    } else if d == 7 {
        "7"
    } else if d == 8 {
        "8"
    } else {
        "9"
    };
    proof {
        assert(r@ =~= seq![digit_char(d as int)]);
    }
    r
}

/// Writes `n` in decimal.
pub fn format_u64(n: u64) -> (r: String)
    ensures
        r@ == dec_digits(n as int),
    decreases n,
{
    if n < 10 {
        digit_str(n).to_owned()
    } else {
        let mut s = format_u64(n / 10);
        s.append(digit_str(n % 10));
        proof {
            assert(s@ =~= dec_digits(n as int));
        }
        s
    }
}

/// Writes `n` in decimal, left-padded with zeros to at least `w`
/// characters.
pub fn format_u64_padded(n: u64, w: usize) -> (r: String)
    ensures
        r@ == padded_dec(n as int, w as int),
{
    let digits = format_u64(n);
    let len = digits.as_str().unicode_len();
    if len >= w {
        proof {
            assert(padded_dec(n as int, w as int) == dec_digits(n as int));
        }
        digits
    } else {
        let mut s = String::new();
        let mut k: usize = 0;
        proof {
            reveal_strlit("0");
        }
        while k < w - len
            invariant
                k <= w - len,
                len < w,
                len == dec_digits(n as int).len(),
                s@ =~= Seq::new(k as nat, |i: int| '0'),
                ("0")@ == seq!['0'],
            decreases w - len - k,
        {
            s.append("0");
            proof {
                assert(s@ =~= Seq::new((k + 1) as nat, |i: int| '0'));
            }
            k = k + 1;
        }
        s.append(digits.as_str());
        proof {
            assert(s@ =~= padded_dec(n as int, w as int));
        }
        s
    }
}

// ---------------------------------------------------------------------------
// The transient directory name.
// ---------------------------------------------------------------------------

/// The name of the directory of transient containers.
pub open spec fn dot_transients() -> Seq<char> {
    seq!['.', 't', 'r', 'a', 'n', 's', 'i', 'e', 'n', 't', 's']
}

/// A transient directory name: the container name, the date written as
/// four-digit year, two-digit month and two-digit day, and the creating
/// process id, separated by dots.
pub open spec fn transient_name(name: Seq<char>, y: int, m: int, d: int, pid: int) -> Seq<char> {
    name + seq!['.'] + padded_dec(y, 4) + padded_dec(m, 2) + padded_dec(d, 2) + seq!['.']
        + dec_digits(pid)
}

/// Builds the transient directory name for one materialization.
pub fn transient_dir_name(name: &str, y: u64, m: u64, d: u64, pid: u64) -> (r: String)
    ensures
        r@ == transient_name(name@, y as int, m as int, d as int, pid as int),
{
    proof {
        reveal_strlit(".");
    }
    let mut s = name.to_owned();
    s.append(".");
    proof {
        assert(s@ =~= name@ + seq!['.']);
    }
    s.append(format_u64_padded(y, 4).as_str());
    s.append(format_u64_padded(m, 2).as_str());
    s.append(format_u64_padded(d, 2).as_str());
    s.append(".");
    s.append(format_u64(pid).as_str());
    proof {
        assert(s@ =~= transient_name(name@, y as int, m as int, d as int, pid as int));
    }
    s
}

/// The pid a transient name encodes is the pid it was built from: the
/// liveness-checked cleanup policy recognizes every directory this engine
/// creates and reads the right owner off it.
pub proof fn lemma_transient_name_pid(name: Seq<char>, y: int, m: int, d: int, pid: int)
    requires
        0 <= pid <= i32::MAX,
        y >= 0,
        m >= 0,
        d >= 0,
    ensures
        pid_of_name(transient_name(name, y, m, d, pid)) == Some(pid as i32),
{
    let full = transient_name(name, y, m, d, pid);
    let digits = dec_digits(pid);
    lemma_dec_digits_wf(pid);
    lemma_dec_digits_wf(y);
    lemma_dec_digits_wf(m);
    lemma_dec_digits_wf(d);
    let k = full.len() - digits.len() - 1;
    assert(k >= name.len() + 9) by {
        assert(padded_dec(y, 4).len() >= 4);
        assert(padded_dec(m, 2).len() >= 2);
        assert(padded_dec(d, 2).len() >= 2);
    }
    assert(full[k] == '.');
    assert forall|j: int| k < j < full.len() implies full[j] != '.' by {
        assert(full[j] == digits[j - k - 1]);
        assert(is_digit(digits[j - k - 1]));
    }
    crate::paths::lemma_last_index_of_unique(full, '.', k);
    assert(full.skip(k + 1) =~= digits);
    assert(extension_of(full) == Some(digits));
    assert(parse_pid_digits(digits) == Some(pid as i32));
}

// ---------------------------------------------------------------------------
// The clock and the process id, taken from the outside world.
// ---------------------------------------------------------------------------

/// Relies on time::OffsetDateTime::now_utc and time::Date: `year` is
/// within ±9999, `month` converts to its number in 1..=12, `day` is in
/// 1..=31. Which date comes back depends on the clock, so nothing more is
/// promised.
#[verifier::external_body]
fn today_utc() -> (r: (i32, u8, u8))
    ensures
        -9999 <= r.0 <= 9999,
        1 <= r.1 <= 12,
        1 <= r.2 <= 31,
{
    let date = time::OffsetDateTime::now_utc().date();
    (date.year(), u8::from(date.month()), date.day())
}

/// Relies on nix::unistd::getpid, which always succeeds; a process id is
/// positive.
#[verifier::external_body]
fn current_pid() -> (r: i32)
    ensures
        r > 0,
{
    nix::unistd::getpid().as_raw()
}

/// What a freshly materialized transient path looks like:
/// `<state>/.transients/<name>.<date>.<pid>` for some calendar date and
/// some live process id, with that pid readable back off the final
/// component — the liveness-checked cleanup policy recognizes it.
pub open spec fn is_transient_target(local_vagga: Seq<char>, name: Seq<char>, p: Seq<char>) -> bool {
    exists|y: int, m: int, d: int, pid: int|
        0 <= y && 1 <= m <= 12 && 1 <= d <= 31 && 0 < pid <= i32::MAX && p == join_path(
            join_path(local_vagga, dot_transients()),
            transient_name(name, y, m, d, pid),
        ) && crate::clean::pid_of_name(crate::paths::file_name_of(p)) == Some(pid as i32)
}

/// The transient directory path for one materialization of `name`:
/// `<state>/.transients/<name>.<date>.<pid>`, dated today and owned by
/// this process. The clock and the pid are the machine's, so the path is
/// pinned only up to them.
pub fn transient_target(local_vagga: &str, name: &str) -> (r: String)
    requires
        !name@.contains('/'),
    ensures
        is_transient_target(local_vagga@, name@, r@),
{
    let (y0, m, d) = today_utc();
    let y: u64 = if y0 > 0 {
        y0 as u64
    } else {
        0
    };
    let pid = current_pid();
    let dir_name = transient_dir_name(name, y, m as u64, d as u64, pid as u64);
    let base = crate::paths::path_join(local_vagga, ".transients");
    proof {
        reveal_strlit(".transients");
        assert((".transients")@ =~= dot_transients());
    }
    let r = crate::paths::path_join(base.as_str(), dir_name.as_str());
    proof {
        lemma_transient_name_pid(name@, y as int, m as int, d as int, pid as int);
        lemma_dec_digits_wf(pid as int);
        lemma_dec_digits_wf(y as int);
        lemma_dec_digits_wf(m as int);
        lemma_dec_digits_wf(d as int);
        assert(!dir_name@.contains('/')) by {
            assert forall|j: int| 0 <= j < dir_name@.len() implies dir_name@[j] != '/' by {
                lemma_transient_name_no_slash(name@, y as int, m as int, d as int, pid as int, j);
            }
        }
        lemma_join_file_name(base@, dir_name@);
        assert(0 <= y as int && 1 <= m as int <= 12 && 1 <= d as int <= 31 && 0 < pid as int
            <= i32::MAX && r@ == join_path(
            join_path(local_vagga@, dot_transients()),
            transient_name(name@, y as int, m as int, d as int, pid as int),
        ) && crate::clean::pid_of_name(crate::paths::file_name_of(r@)) == Some(pid));
    }
    r
}

/// No character of a transient name is a separator, provided the
/// container name holds none: the dots and digits it adds never are.
proof fn lemma_transient_name_no_slash(
    name: Seq<char>,
    y: int,
    m: int,
    d: int,
    pid: int,
    j: int,
)
    requires
        !name.contains('/'),
        y >= 0,
        m >= 0,
        d >= 0,
        pid >= 0,
        0 <= j < transient_name(name, y, m, d, pid).len(),
    ensures
        transient_name(name, y, m, d, pid)[j] != '/',
{
    let full = transient_name(name, y, m, d, pid);
    lemma_dec_digits_wf(y);
    lemma_dec_digits_wf(m);
    lemma_dec_digits_wf(d);
    lemma_dec_digits_wf(pid);
    lemma_padded_all_digits(y, 4);
    lemma_padded_all_digits(m, 2);
    lemma_padded_all_digits(d, 2);
    let a = name;
    let b = padded_dec(y, 4);
    let c = padded_dec(m, 2);
    let e = padded_dec(d, 2);
    let f = dec_digits(pid);
    if j < a.len() {
        assert(full[j] == a[j]);
        if a[j] == '/' {
            assert(a.contains('/'));
        }
    } else if j == a.len() {
        assert(full[j] == '.');
    } else if j < a.len() + 1 + b.len() {
        assert(full[j] == b[j - a.len() - 1]);
        assert(is_digit(b[j - a.len() - 1]));
    } else if j < a.len() + 1 + b.len() + c.len() {
        assert(full[j] == c[j - a.len() - 1 - b.len()]);
        assert(is_digit(c[j - a.len() - 1 - b.len()]));
    } else if j < a.len() + 1 + b.len() + c.len() + e.len() {
        assert(full[j] == e[j - a.len() - 1 - b.len() - c.len()]);
        assert(is_digit(e[j - a.len() - 1 - b.len() - c.len()]));
    } else if j == a.len() + 1 + b.len() + c.len() + e.len() {
        assert(full[j] == '.');
    } else {
        assert(full[j] == f[j - a.len() - 2 - b.len() - c.len() - e.len()]);
        assert(is_digit(f[j - a.len() - 2 - b.len() - c.len() - e.len()]));
    }
}

/// A zero-padded number is all digits.
pub proof fn lemma_padded_all_digits(n: int, w: int)
    requires
        n >= 0,
    ensures
        all_digits(padded_dec(n, w)),
        padded_dec(n, w).len() >= w,
        padded_dec(n, w).len() >= 1,
{
    lemma_dec_digits_wf(n);
    let p = padded_dec(n, w);
    let digits = dec_digits(n);
    if digits.len() >= w {
    } else {
        let z = (w - digits.len()) as nat;
        assert forall|i: int| 0 <= i < p.len() implies is_digit(#[trigger] p[i]) by {
            if i < z {
                assert(p[i] == '0');
                assert('0' as u32 == 48);
            } else {
                assert(p[i] == digits[i - z]);
            }
        }
    }
}

/// The final component of a join is the joined name, provided the name is
/// a plain relative one.
proof fn lemma_join_file_name(base: Seq<char>, name: Seq<char>)
    requires
        name.len() > 0,
        !name.contains('/'),
    ensures
        crate::paths::file_name_of(join_path(base, name)) == name,
{
    let joined = join_path(base, name);
    if name[0] == '/' {
        assert(name.contains('/'));
    } else {
        let k = base.len() as int;
        assert(joined == base + seq!['/'] + name);
        assert(joined[k] == '/');
        assert forall|j: int| k < j < joined.len() implies joined[j] != '/' by {
            assert(joined[j] == name[j - k - 1]);
            if name[j - k - 1] == '/' {
                assert(name.contains('/'));
            }
        }
        crate::paths::lemma_last_index_of_unique(joined, '/', k);
        assert(joined.skip(k + 1) =~= name);
    }
}

// ---------------------------------------------------------------------------
// The write sentinel.
// ---------------------------------------------------------------------------

/// A scoped handle owning at most one directory-to-delete obligation,
/// together with the runner executable needed to perform that deletion.
pub struct WriteSentinel {
    pub vagga_exe: String,
    pub dir_to_delete: Option<String>,
}

impl WriteSentinel {
    /// A fresh handle with no obligation.
    pub fn new(vagga_exe: &String) -> (s: WriteSentinel)
        ensures
            s.vagga_exe == *vagga_exe,
            s.dir_to_delete is None,
    {
        WriteSentinel { vagga_exe: vagga_exe.clone(), dir_to_delete: None }
    }

    /// Records the obligation to delete `path` on release. Recorded before
    /// cloning begins, so a partially created tree is cleaned up too.
    pub fn record_delete_dir(&mut self, path: String)
        ensures
            final(self).vagga_exe == old(self).vagga_exe,
            final(self).dir_to_delete == Some(path),
    {
        self.dir_to_delete = Some(path);
    }

    /// Consumes the obligation at release: whatever happened since it was
    /// recorded — a finished clone, a failed one, or no clone at all — the
    /// recorded directory comes back exactly once, and the handle keeps
    /// none.
    pub fn take_delete_dir(&mut self) -> (r: Option<String>)
        ensures
            r == old(self).dir_to_delete,
            final(self).dir_to_delete is None,
            final(self).vagga_exe == old(self).vagga_exe,
    {
        self.dir_to_delete.take()
    }
}

/// Whether the write mode requires a transient copy.
pub fn is_writeable(val: WriteMode) -> (r: bool)
    ensures
        r == (val is TransientHardLinkCopy),
{
    match val {
        WriteMode::ReadOnly => false,
        WriteMode::TransientHardLinkCopy => true,
    }
}

/// Prepares one materialization: a sentinel holding the runner executable
/// and, when the mode asks for a copy, the transient directory to create,
/// already recorded in the sentinel as the directory to delete on release.
pub fn write_sentinel_plan(env: &Environ, container: &Container, write_mode: WriteMode) -> (r: (
    WriteSentinel,
    Option<String>,
))
    requires
        !container.name@.contains('/'),
    ensures
        r.0.vagga_exe == env.vagga_exe,
        write_mode is ReadOnly ==> r.0.dir_to_delete is None && r.1 is None,
        write_mode is TransientHardLinkCopy ==> r.1 is Some && r.0.dir_to_delete == r.1
            && is_transient_target(env.local_vagga@, container.name@, r.1->Some_0@),
{
    let mut sentinel = WriteSentinel::new(&env.vagga_exe);
    match write_mode {
        WriteMode::ReadOnly => (sentinel, None),
        WriteMode::TransientHardLinkCopy => {
            let path = transient_target(env.local_vagga.as_str(), container.name.as_str());
            sentinel.record_delete_dir(path.clone());
            (sentinel, Some(path))
        },
    }
}

// ---------------------------------------------------------------------------
// The banner.
// ---------------------------------------------------------------------------

/// The text a configured banner prints, newline included: a banner that
/// is empty or does not end in a newline gets one appended, any other is
/// printed as it stands.
pub fn banner_text(val: &Option<String>) -> (r: Option<String>)
    ensures
        match val {
            None => r is None,
            Some(x) => r is Some && {
                let t = r->Some_0@;
                if x@.len() == 0 || x@.last() != '\n' {
                    t == x@.push('\n')
                } else {
                    t == x@
                }
            },
        },
{
    match val {
        None => None,
        Some(x) => {
            let n = x.as_str().unicode_len();
            if n == 0 || x.as_str().get_char(n - 1) != '\n' {
                let mut t = x.clone();
                t.append("\n");
                proof {
                    reveal_strlit("\n");
                    assert(t@ =~= x@.push('\n'));
                }
                Some(t)
            } else {
                Some(x.clone())
            }
        },
    }
}

// ---------------------------------------------------------------------------
// The working-directory check.
// ---------------------------------------------------------------------------

/// A command's working directory is in order when it stays inside the
/// project root: a relative one must never walk above the root, an
/// absolute one must lie under it.
pub open spec fn workdir_ok(root: Seq<char>, wd: Seq<char>) -> bool {
    if is_absolute(wd) {
        crate::paths::path_components(root).is_prefix_of(crate::paths::path_components(wd))
            && !crate::paths::escapes(
            crate::paths::path_components(wd).skip(crate::paths::path_components(root).len() as int),
        )
    } else {
        !crate::paths::escapes(crate::paths::path_components(wd))
    }
}

/// The directory a command runs in, when its declared one is in order.
pub open spec fn workdir_target(root: Seq<char>, wd: Seq<char>) -> Seq<char> {
    if is_absolute(wd) {
        wd
    } else {
        join_path(root, wd)
    }
}

/// Whether `a`'s components open `b`'s.
pub fn components_prefix(a: &Vec<String>, b: &Vec<String>) -> (r: bool)
    ensures
        r == a.deep_view().is_prefix_of(b.deep_view()),
{
    if a.len() > b.len() {
        return false;
    }
    let mut k: usize = 0;
    while k < a.len()
        invariant
            k <= a.len() <= b.len(),
            forall|j: int| 0 <= j < k ==> a.deep_view()[j] == b.deep_view()[j],
        decreases a.len() - k,
    {
        if !(a[k] == b[k]) {
            proof {
                assert(a.deep_view()[k as int] != b.deep_view()[k as int]);
            }
            return false;
        }
        k = k + 1;
    }
    proof {
        assert(a.deep_view() =~= b.deep_view().subrange(0, a.len() as int));
    }
    true
}

/// The components from `start` on.
fn tail_components(v: &Vec<String>, start: usize) -> (r: Vec<String>)
    requires
        start <= v@.len(),
    ensures
        r.deep_view() == v.deep_view().skip(start as int),
{
    let mut r: Vec<String> = Vec::new();
    let mut k: usize = start;
    while k < v.len()
        invariant
            start <= k <= v@.len(),
            r.deep_view() == v.deep_view().subrange(start as int, k as int),
        decreases v@.len() - k,
    {
        let ghost before = r.deep_view();
        r.push(v[k].clone());
        proof {
            assert(r.deep_view() =~= before.push(v.deep_view()[k as int]));
            assert(r.deep_view() =~= v.deep_view().subrange(start as int, k + 1));
        }
        k = k + 1;
    }
    proof {
        assert(v.deep_view().subrange(start as int, v@.len() as int) =~= v.deep_view().skip(
            start as int,
        ));
    }
    r
}

/// Resolves the working directory for one command: the environment's
/// default when the command declares none, the declared one otherwise,
/// rejected when it leaves the project root.
pub fn check_command_workdir(env: &Environ, command: &Command) -> (r: Result<String, String>)
    ensures
        match command.work_dir {
            None => r is Ok && r->Ok_0@ == env.work_dir@,
            Some(wd) => if workdir_ok(env.project_root@, wd@) {
                r is Ok && r->Ok_0@ == workdir_target(env.project_root@, wd@)
            } else {
                r is Err && r->Err_0@ == ("Command's work-dir must be relative to project root")@
            },
        },
{
    match &command.work_dir {
        None => Ok(env.work_dir.clone()),
        Some(wd) => {
            let ok: bool;
            if crate::paths::path_is_absolute(wd.as_str()) {
                let wc = crate::paths::split_components(wd.as_str());
                let rc = crate::paths::split_components(env.project_root.as_str());
                if components_prefix(&rc, &wc) {
                    let tail = tail_components(&wc, rc.len());
                    ok = !crate::paths::components_escape(&tail);
                } else {
                    ok = false;
                }
            } else {
                let comps = crate::paths::split_components(wd.as_str());
                ok = !crate::paths::components_escape(&comps);
            }
            if ok {
                if crate::paths::path_is_absolute(wd.as_str()) {
                    Ok(wd.clone())
                } else {
                    Ok(crate::paths::path_join(env.project_root.as_str(), wd.as_str()))
                }
            } else {
                Err("Command's work-dir must be relative to project root".to_owned())
            }
        },
    }
}

// ---------------------------------------------------------------------------
// Hardlink-clone planning.
// ---------------------------------------------------------------------------

/// What a directory entry is, as far as cloning cares.
#[derive(Clone, Copy, Debug, PartialEq, Eq, Structural)]
pub enum FileKind {
    Regular,
    Symlink,
    Directory,
    NamedPipe,
    BlockDevice,
    Unknown,
}

/// How the clone treats one entry.
#[derive(Clone, Copy, Debug, PartialEq, Eq, Structural)]
pub enum CloneAction {
    /// Hardlink the entry into the target tree: same inode, no bytes copied.
    HardLink,
    /// Recreate the directory with matching permissions and recurse into it.
    MakeDirAndRecurse,
    /// Special files are skipped with a warning, never copied, never fatal.
    Skip,
}

/// Files and symbolic links are hardlinked, directories recreated and
/// recursed into, and every other kind skipped.
pub fn clone_action(kind: &FileKind) -> (r: CloneAction)
    ensures
        match kind {
            FileKind::Regular => r is HardLink,
            FileKind::Symlink => r is HardLink,
            FileKind::Directory => r is MakeDirAndRecurse,
            FileKind::NamedPipe => r is Skip,
            FileKind::BlockDevice => r is Skip,
            FileKind::Unknown => r is Skip,
        },
{
    match kind {
        FileKind::Regular | FileKind::Symlink => CloneAction::HardLink,
        FileKind::Directory => CloneAction::MakeDirAndRecurse,
        FileKind::NamedPipe | FileKind::BlockDevice | FileKind::Unknown => CloneAction::Skip,
    }
}

/// One entry of a directory listing handed to the clone planner.
pub struct DirEntry {
    pub name: String,
    pub kind: FileKind,
    /// The entry's permission bits, preserved for recreated directories.
    pub perm: u32,
}

/// One operation of a clone plan, relative to the directory being cloned.
#[derive(Debug)]
pub enum CloneOp {
    /// Hardlink the named entry to the same name in the target.
    Link(String),
    /// Create the named directory in the target with the given permission
    /// bits, then clone its contents.
    MakeDir(String, u32),
}

/// The plan for one directory level: files and symbolic links are linked,
/// directories recreated with their permissions, everything else dropped
/// without an error.
pub open spec fn clone_plan_spec(entries: Seq<DirEntry>) -> Seq<CloneOp>
    decreases entries.len(),
{
    if entries.len() == 0 {
        Seq::empty()
    } else {
        let rest = clone_plan_spec(entries.drop_last());
        let e = entries.last();
        match e.kind {
            FileKind::Regular => rest.push(CloneOp::Link(e.name)),
            FileKind::Symlink => rest.push(CloneOp::Link(e.name)),
            FileKind::Directory => rest.push(CloneOp::MakeDir(e.name, e.perm)),
            FileKind::NamedPipe => rest,
            FileKind::BlockDevice => rest,
            FileKind::Unknown => rest,
        }
    }
}

/// Plans the clone of one directory level, exactly as `clone_plan_spec`
/// describes: every regular file and symbolic link is present in the
/// target, every directory is recreated with equivalent permissions, and
/// special files are absent with no error raised.
pub fn clone_plan(entries: &Vec<DirEntry>) -> (r: Vec<CloneOp>)
    ensures
        r@ == clone_plan_spec(entries@),
{
    let mut r: Vec<CloneOp> = Vec::new();
    let mut k: usize = 0;
    while k < entries.len()
        invariant
            k <= entries.len(),
            r@ == clone_plan_spec(entries@.take(k as int)),
        decreases entries.len() - k,
    {
        proof {
            assert(entries@.take(k + 1).drop_last() =~= entries@.take(k as int));
            assert(entries@.take(k + 1).last() == entries@[k as int]);
        }
        match &entries[k].kind {
            FileKind::Regular | FileKind::Symlink => {
                r.push(CloneOp::Link(entries[k].name.clone()));
            },
            FileKind::Directory => {
                r.push(CloneOp::MakeDir(entries[k].name.clone(), entries[k].perm));
            },
            FileKind::NamedPipe | FileKind::BlockDevice | FileKind::Unknown => {},
        }
        k = k + 1;
    }
    proof {
        assert(entries@.take(entries.len() as int) =~= entries@);
    }
    r
}

// ---------------------------------------------------------------------------
// The mount spec builder.
// ---------------------------------------------------------------------------

/// The mount staging directory under the state directory.
pub open spec fn dot_mnt() -> Seq<char> {
    seq!['.', 'm', 'n', 't']
}

/// An absolute in-container path re-rooted under the mount staging
/// directory.
pub open spec fn mount_target(local_vagga: Seq<char>, dir: Seq<char>) -> Seq<char> {
    join_path(join_path(local_vagga, dot_mnt()), dir.skip(1))
}

/// Turns a container's declared volumes into mount operations: one tmpfs
/// pseudo-mount per declared tmpfs volume, then one self-bind per declared
/// mutable directory, each re-rooted under the staging directory, in
/// declaration order. Pure; no deduplication and no conflict detection.
pub fn container_volumes(env: &Environ, container: &Container) -> (r: Vec<Mount>)
    requires
        forall|i: int|
            0 <= i < container.tmpfs_volumes@.len() ==> is_absolute(
                #[trigger] container.tmpfs_volumes@[i].0@,
            ),
        forall|i: int|
            0 <= i < container.mutable_dirs@.len() ==> is_absolute(
                #[trigger] container.mutable_dirs@[i]@,
            ),
    ensures
        r@.len() == container.tmpfs_volumes@.len() + container.mutable_dirs@.len(),
        forall|i: int|
            0 <= i < container.tmpfs_volumes@.len() ==> {
                let mnt = #[trigger] r@[i];
                &&& mnt is Pseudo
                &&& mnt->Pseudo_0@ == seq!['t', 'm', 'p', 'f', 's']
                &&& mnt->Pseudo_1@ == mount_target(
                    env.local_vagga@,
                    container.tmpfs_volumes@[i].0@,
                )
                &&& mnt->Pseudo_2@ == container.tmpfs_volumes@[i].1@
            },
        forall|i: int|
            0 <= i < container.mutable_dirs@.len() ==> {
                let mnt = #[trigger] r@[container.tmpfs_volumes@.len() + i];
                &&& mnt is Bind
                &&& mnt->Bind_0@ == mount_target(env.local_vagga@, container.mutable_dirs@[i]@)
                &&& mnt->Bind_1@ == mount_target(env.local_vagga@, container.mutable_dirs@[i]@)
            },
{
    let mount_dir = crate::paths::path_join(env.local_vagga.as_str(), ".mnt");
    proof {
        reveal_strlit(".mnt");
        assert((".mnt")@ =~= dot_mnt());
    }
    let mut r: Vec<Mount> = Vec::new();
    let mut k: usize = 0;
    while k < container.tmpfs_volumes.len()
        invariant
            k <= container.tmpfs_volumes@.len(),
            mount_dir@ == join_path(env.local_vagga@, dot_mnt()),
            forall|i: int|
                0 <= i < container.tmpfs_volumes@.len() ==> is_absolute(
                    #[trigger] container.tmpfs_volumes@[i].0@,
                ),
            r@.len() == k,
            forall|i: int|
                0 <= i < k ==> {
                    let mnt = #[trigger] r@[i];
                    &&& mnt is Pseudo
                    &&& mnt->Pseudo_0@ == seq!['t', 'm', 'p', 'f', 's']
                    &&& mnt->Pseudo_1@ == mount_target(
                        env.local_vagga@,
                        container.tmpfs_volumes@[i].0@,
                    )
                    &&& mnt->Pseudo_2@ == container.tmpfs_volumes@[i].1@
                },
        decreases container.tmpfs_volumes@.len() - k,
    {
        let rel = crate::paths::strip_root(container.tmpfs_volumes[k].0.as_str());
        let target = crate::paths::path_join(mount_dir.as_str(), rel.as_str());
        let fstype: String = "tmpfs".to_owned();
        proof {
            reveal_strlit("tmpfs");
            assert(fstype@ =~= seq!['t', 'm', 'p', 'f', 's']);
        }
        r.push(Mount::Pseudo(fstype, target, container.tmpfs_volumes[k].1.clone()));
        k = k + 1;
    }
    let ghost t = container.tmpfs_volumes@.len() as int;
    let mut k: usize = 0;
    while k < container.mutable_dirs.len()
        invariant
            k <= container.mutable_dirs@.len(),
            mount_dir@ == join_path(env.local_vagga@, dot_mnt()),
            forall|i: int|
                0 <= i < container.mutable_dirs@.len() ==> is_absolute(
                    #[trigger] container.mutable_dirs@[i]@,
                ),
            t == container.tmpfs_volumes@.len(),
            r@.len() == t + k,
            forall|i: int|
                0 <= i < t ==> {
                    let mnt = #[trigger] r@[i];
                    &&& mnt is Pseudo
                    &&& mnt->Pseudo_0@ == seq!['t', 'm', 'p', 'f', 's']
                    &&& mnt->Pseudo_1@ == mount_target(
                        env.local_vagga@,
                        container.tmpfs_volumes@[i].0@,
                    )
                    &&& mnt->Pseudo_2@ == container.tmpfs_volumes@[i].1@
                },
            forall|i: int|
                0 <= i < k ==> {
                    let mnt = #[trigger] r@[t + i];
                    &&& mnt is Bind
                    &&& mnt->Bind_0@ == mount_target(env.local_vagga@, container.mutable_dirs@[i]@)
                    &&& mnt->Bind_1@ == mount_target(env.local_vagga@, container.mutable_dirs@[i]@)
                },
        decreases container.mutable_dirs@.len() - k,
    {
        let rel = crate::paths::strip_root(container.mutable_dirs[k].as_str());
        let target = crate::paths::path_join(mount_dir.as_str(), rel.as_str());
        let source = target.clone();
        r.push(Mount::Bind(source, target));
        k = k + 1;
    }
    r
}

/// Whether every declared volume path of the container is absolute: what
/// `container_volumes` asks of its caller.
pub fn volumes_absolute(container: &Container) -> (r: bool)
    ensures
        r == {
            &&& forall|i: int|
                0 <= i < container.tmpfs_volumes@.len() ==> is_absolute(
                    #[trigger] container.tmpfs_volumes@[i].0@,
                )
            &&& forall|i: int|
                0 <= i < container.mutable_dirs@.len() ==> is_absolute(
                    #[trigger] container.mutable_dirs@[i]@,
                )
        },
{
    let mut k: usize = 0;
    while k < container.tmpfs_volumes.len()
        invariant
            k <= container.tmpfs_volumes@.len(),
            forall|i: int| 0 <= i < k ==> is_absolute(#[trigger] container.tmpfs_volumes@[i].0@),
        decreases container.tmpfs_volumes@.len() - k,
    {
        if !crate::paths::path_is_absolute(container.tmpfs_volumes[k].0.as_str()) {
            return false;
        }
        k = k + 1;
    }
    let mut k: usize = 0;
    while k < container.mutable_dirs.len()
        invariant
            k <= container.mutable_dirs@.len(),
            forall|i: int|
                0 <= i < container.tmpfs_volumes@.len() ==> is_absolute(
                    #[trigger] container.tmpfs_volumes@[i].0@,
                ),
            forall|i: int| 0 <= i < k ==> is_absolute(#[trigger] container.mutable_dirs@[i]@),
        decreases container.mutable_dirs@.len() - k,
    {
        if !crate::paths::path_is_absolute(container.mutable_dirs[k].as_str()) {
            return false;
        }
        k = k + 1;
    }
    true
}

// ---------------------------------------------------------------------------
// The atomic resolver-config write.
// ---------------------------------------------------------------------------

pub open spec fn resolv_conf_name() -> Seq<char> {
    seq!['r', 'e', 's', 'o', 'l', 'v', '.', 'c', 'o', 'n', 'f']
}

pub open spec fn resolv_tmp_name() -> Seq<char> {
    resolv_conf_name() + seq!['.', 't', 'm', 'p']
}

/// The three paths of one resolver-config write.
pub struct ResolvPaths {
    /// The directory the config lives in, inside the container root.
    pub dir: String,
    /// The temporary name the new content is copied to first.
    pub tmp: String,
    /// The final name readers look at.
    pub dst: String,
}

/// Computes where a resolver-config write works, re-rooting the absolute
/// in-container directory under the container root. The temporary and
/// final names always differ: the write to the final name is the rename
/// alone.
pub fn resolv_conf_paths(root: &str, subdir: &str) -> (r: ResolvPaths)
    requires
        is_absolute(subdir@),
    ensures
        r.dir@ == join_path(root@, subdir@.skip(1)),
        r.tmp@ == join_path(r.dir@, resolv_tmp_name()),
        r.dst@ == join_path(r.dir@, resolv_conf_name()),
        r.tmp@ != r.dst@,
{
    let rel = crate::paths::strip_root(subdir);
    let dir = crate::paths::path_join(root, rel.as_str());
    let tmp = crate::paths::path_join(dir.as_str(), "resolv.conf.tmp");
    let dst = crate::paths::path_join(dir.as_str(), "resolv.conf");
    proof {
        reveal_strlit("resolv.conf.tmp");
        reveal_strlit("resolv.conf");
        assert(("resolv.conf.tmp")@ =~= resolv_tmp_name());
        assert(("resolv.conf")@ =~= resolv_conf_name());
        assert(tmp@.len() == dir@.len() + 16);
        assert(dst@.len() == dir@.len() + 12);
    }
    ResolvPaths { dir, tmp, dst }
}

/// Modeling the write as a map from paths to whole file contents: copying
/// the new content to the temporary name leaves the final name untouched
/// — old content, or still absent — and the rename makes the final name
/// the new content in one step. A reader of the final name, sampled at
/// any instant, sees the prior complete content or the new complete
/// content, never a partial file.
pub proof fn lemma_atomic_config_write(
    fs: Map<Seq<char>, Seq<u8>>,
    tmp: Seq<char>,
    dst: Seq<char>,
    content: Seq<u8>,
)
    requires
        tmp != dst,
    ensures
        ({
            let after_copy = fs.insert(tmp, content);
            let after_rename = after_copy.insert(dst, content).remove(tmp);
            &&& after_copy.contains_key(dst) == fs.contains_key(dst)
            &&& (fs.contains_key(dst) ==> after_copy[dst] == fs[dst])
            &&& after_rename.contains_key(dst)
            &&& after_rename[dst] == content
        }),
{
}

} // verus!
