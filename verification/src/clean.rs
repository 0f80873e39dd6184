//! The retention policy engine: classifies on-disk container and transient
//! directories into deletion sets. Every policy is a pure function over a
//! snapshot of directory listings; the scanning itself is I/O and stays with
//! the caller, which hands the listings in as plain values.

use vstd::prelude::*;
use vstd::string::*;
use crate::paths::{join_path, extension_of, dir_name_of, file_name_of};

verus! {

/// The six mutually exclusive retention policies, selected once per
/// invocation.
pub enum CleanMode {
    Help,
    Container,
    TmpFolders,
    OldContainers,
    Transient,
    AllTransient,
    Everything,
}

/// The name of the directory of persistent container roots.
pub open spec fn dot_roots() -> Seq<char> {
    seq!['.', 'r', 'o', 'o', 't', 's']
}

/// A name is leftover temporary work when its extension is `tmp`.
pub open spec fn is_tmp_name(name: Seq<char>) -> bool {
    extension_of(name) == Some(seq!['t', 'm', 'p'])
}

/// The names among `names` whose extension is `tmp`, in listing order.
pub open spec fn tmp_selection(names: Seq<Seq<char>>) -> Seq<Seq<char>>
    decreases names.len(),
{
    if names.len() == 0 {
        Seq::empty()
    } else {
        let rest = tmp_selection(names.drop_last());
        if is_tmp_name(names.last()) {
            rest.push(names.last())
        } else {
            rest
        }
    }
}

/// Selects the entries marking incomplete work: those whose final name
/// carries the `tmp` extension. `foo.tmp` qualifies; `foo` and `foo.tmp2`
/// do not.
pub fn select_tmp_folders(names: &Vec<String>) -> (r: Vec<String>)
    ensures
        r.deep_view() == tmp_selection(names.deep_view()),
{
    let tmp_ext: String = "tmp".to_owned();
    proof {
        reveal_strlit("tmp");
    }
    let mut r: Vec<String> = Vec::new();
    let mut k: usize = 0;
    while k < names.len()
        invariant
            k <= names.len(),
            tmp_ext@ == seq!['t', 'm', 'p'],
            r.deep_view() == tmp_selection(names.deep_view().take(k as int)),
        decreases names.len() - k,
    {
        let ghost pre = names.deep_view().take(k as int);
        proof {
            assert(names.deep_view().take(k + 1).drop_last() =~= pre);
            assert(names.deep_view().take(k + 1).last() == names[k as int]@);
        }
        let selected = match crate::paths::extension(&names[k]) {
            Some(e) => e == tmp_ext,
            None => false,
        };
        if selected {
            let ghost old_deep = r.deep_view();
            r.push(names[k].clone());
            proof {
                assert(r.deep_view() =~= old_deep.push(names.deep_view()[k as int]));
            }
        }
        k = k + 1;
    }
    proof {
        assert(names.deep_view().take(names.len() as int) =~= names.deep_view());
    }
    r
}

/// The root names that some current top-level link keeps alive: for each
/// link target that points into `.roots`, the linked-to root name.
pub open spec fn alive_selection(targets: Seq<Seq<char>>) -> Seq<Seq<char>>
    decreases targets.len(),
{
    if targets.len() == 0 {
        Seq::empty()
    } else {
        let rest = alive_selection(targets.drop_last());
        if dir_name_of(targets.last()) == dot_roots() {
            rest.push(file_name_of(targets.last()))
        } else {
            rest
        }
    }
}

/// Reads the set of alive root names off the targets of the state
/// directory's top-level links.
pub fn alive_roots(targets: &Vec<String>) -> (r: Vec<String>)
    ensures
        r.deep_view() == alive_selection(targets.deep_view()),
{
    let dot_roots_name: String = ".roots".to_owned();
    proof {
        reveal_strlit(".roots");
    }
    let mut r: Vec<String> = Vec::new();
    let mut k: usize = 0;
    while k < targets.len()
        invariant
            k <= targets.len(),
            dot_roots_name@ == dot_roots(),
            r.deep_view() == alive_selection(targets.deep_view().take(k as int)),
        decreases targets.len() - k,
    {
        proof {
            assert(targets.deep_view().take(k + 1).drop_last() =~= targets.deep_view().take(
                k as int,
            ));
            assert(targets.deep_view().take(k + 1).last() == targets[k as int]@);
        }
        let (dir, file) = crate::paths::split_dir_file(&targets[k]);
        if dir == dot_roots_name {
            let ghost old_deep = r.deep_view();
            r.push(file);
            proof {
                assert(r.deep_view() =~= old_deep.push(file_name_of(targets.deep_view()[k as int])));
            }
        }
        k = k + 1;
    }
    proof {
        assert(targets.deep_view().take(targets.len() as int) =~= targets.deep_view());
    }
    r
}

/// The root names not kept alive by any current link, in listing order.
pub open spec fn old_name_selection(names: Seq<Seq<char>>, alive: Seq<Seq<char>>) -> Seq<Seq<char>>
    decreases names.len(),
{
    if names.len() == 0 {
        Seq::empty()
    } else {
        let rest = old_name_selection(names.drop_last(), alive);
        if !alive.contains(names.last()) {
            rest.push(names.last())
        } else {
            rest
        }
    }
}

/// Whether `v` holds a string equal to `s`.
pub fn contains_string(v: &Vec<String>, s: &String) -> (r: bool)
    ensures
        r == v.deep_view().contains(s@),
{
    let mut k: usize = 0;
    while k < v.len()
        invariant
            k <= v.len(),
            forall|j: int| 0 <= j < k ==> v.deep_view()[j] != s@,
        decreases v.len() - k,
    {
        if v[k] == *s {
            assert(v.deep_view()[k as int] == s@);
            return true;
        }
        k = k + 1;
    }
    assert(forall|j: int| 0 <= j < v.deep_view().len() ==> v.deep_view()[j] != s@);
    false
}

/// Generational retention: selects every root name that no current
/// top-level link points at.
pub fn select_old_containers(names: &Vec<String>, alive: &Vec<String>) -> (r: Vec<String>)
    ensures
        r.deep_view() == old_name_selection(names.deep_view(), alive.deep_view()),
{
    let mut r: Vec<String> = Vec::new();
    let mut k: usize = 0;
    while k < names.len()
        invariant
            k <= names.len(),
            r.deep_view() == old_name_selection(names.deep_view().take(k as int), alive.deep_view()),
        decreases names.len() - k,
    {
        proof {
            assert(names.deep_view().take(k + 1).drop_last() =~= names.deep_view().take(k as int));
            assert(names.deep_view().take(k + 1).last() == names[k as int]@);
        }
        if !contains_string(alive, &names[k]) {
            let ghost old_deep = r.deep_view();
            r.push(names[k].clone());
            proof {
                assert(r.deep_view() =~= old_deep.push(names.deep_view()[k as int]));
            }
        }
        k = k + 1;
    }
    proof {
        assert(names.deep_view().take(names.len() as int) =~= names.deep_view());
    }
    r
}

/// A root is selected by the old-containers policy exactly when it is
/// listed and no link keeps it alive.
pub proof fn lemma_old_containers_exact(names: Seq<Seq<char>>, alive: Seq<Seq<char>>)
    ensures
        forall|n: Seq<char>|
            #[trigger] old_name_selection(names, alive).contains(n) <==> (names.contains(n)
                && !alive.contains(n)),
    decreases names.len(),
{
    if names.len() == 0 {
        assert forall|n: Seq<char>| !old_name_selection(names, alive).contains(n) by {}
        assert forall|n: Seq<char>| !names.contains(n) by {}
    } else {
        lemma_old_containers_exact(names.drop_last(), alive);
        let rest = old_name_selection(names.drop_last(), alive);
        assert forall|n: Seq<char>|
            #[trigger] old_name_selection(names, alive).contains(n) <==> (names.contains(n)
                && !alive.contains(n)) by {
            if !alive.contains(names.last()) {
                assert(old_name_selection(names, alive) == rest.push(names.last()));
                if old_name_selection(names, alive).contains(n) {
                    if n == names.last() {
                        assert(names.contains(n));
                    } else {
                        assert(rest.push(names.last()).contains(n) ==> rest.contains(n)) by {
                            if rest.push(names.last()).contains(n) {
                                let i = choose|i: int|
                                    0 <= i < rest.push(names.last()).len() && rest.push(
                                        names.last(),
                                    )[i] == n;
                                assert(i < rest.len());
                                assert(rest[i] == n);
                            }
                        }
                        assert(names.drop_last().contains(n));
                        assert(names[choose|i: int|
                            0 <= i < names.drop_last().len() && names.drop_last()[i] == n] == n);
                    }
                } else {
                    if names.contains(n) && !alive.contains(n) {
                        if n == names.last() {
                            assert(rest.push(names.last()).last() == n);
                            assert(old_name_selection(names, alive).contains(n));
                        } else {
                            let i = choose|i: int| 0 <= i < names.len() && names[i] == n;
                            assert(names.drop_last()[i] == n);
                            assert(rest.contains(n));
                            let j = choose|j: int| 0 <= j < rest.len() && rest[j] == n;
                            assert(rest.push(names.last())[j] == n);
                        }
                    }
                }
            } else {
                assert(old_name_selection(names, alive) == rest);
                if names.contains(n) && !alive.contains(n) {
                    let i = choose|i: int| 0 <= i < names.len() && names[i] == n;
                    assert(i != names.len() - 1);
                    assert(names.drop_last()[i] == n);
                } else if rest.contains(n) {
                    assert(names.drop_last().contains(n));
                    assert(names[choose|i: int|
                        0 <= i < names.drop_last().len() && names.drop_last()[i] == n] == n);
                }
            }
        }
    }
}

/// An ASCII decimal digit.
pub open spec fn is_digit(c: char) -> bool {
    48 <= c as u32 <= 57
}

pub open spec fn all_digits(s: Seq<char>) -> bool {
    forall|i: int| 0 <= i < s.len() ==> is_digit(#[trigger] s[i])
}

/// The value of a string of decimal digits.
pub open spec fn digits_val(s: Seq<char>) -> int
    decreases s.len(),
{
    if s.len() == 0 {
        0
    } else {
        digits_val(s.drop_last()) * 10 + (s.last() as u32 - 48)
    }
}

pub proof fn lemma_digits_val_nonneg(s: Seq<char>)
    requires
        all_digits(s),
    ensures
        digits_val(s) >= 0,
    decreases s.len(),
{
    if s.len() > 0 {
        assert(forall|i: int| 0 <= i < s.drop_last().len() ==> is_digit(#[trigger] s.drop_last()[i]));
        lemma_digits_val_nonneg(s.drop_last());
    }
}

/// A process id read from a string: a nonempty run of digits whose value
/// fits in `i32`; anything else is no pid.
pub open spec fn parse_pid_digits(s: Seq<char>) -> Option<i32> {
    if s.len() > 0 && all_digits(s) && digits_val(s) <= i32::MAX {
        Some(digits_val(s) as i32)
    } else {
        None
    }
}

/// Parses a decimal process id exactly as `parse_pid_digits` describes.
pub fn parse_pid(s: &str) -> (r: Option<i32>)
    ensures
        match r {
            Some(p) => parse_pid_digits(s@) == Some(p),
            None => parse_pid_digits(s@) is None,
        },
{
    let n = s.unicode_len();
    if n == 0 {
        return None;
    }
    let mut acc: i64 = 0;
    let mut k: usize = 0;
    while k < n
        invariant
            n == s@.len(),
            k <= n,
            all_digits(s@.take(k as int)),
            0 <= acc <= 0x8000_0000i64,
            digits_val(s@.take(k as int)) <= i32::MAX ==> acc == digits_val(s@.take(k as int)),
            digits_val(s@.take(k as int)) > i32::MAX ==> acc == 0x8000_0000i64,
        decreases n - k,
    {
        let c = s.get_char(k);
        let d = c as u32;
        if d < 48 || d > 57 {
            proof {
                assert(!is_digit(s@[k as int]));
            }
            return None;
        }
        let ghost pre = s@.take(k as int);
        proof {
            assert(s@.take(k + 1).drop_last() =~= pre);
            assert(s@.take(k + 1).last() == s@[k as int]);
            assert(all_digits(s@.take(k + 1)));
            lemma_digits_val_nonneg(pre);
        }
        let dv = (d - 48) as i64;
        if acc <= 0x7fff_ffff {
            acc = acc * 10 + dv;
            if acc > 0x7fff_ffff {
                acc = 0x8000_0000;
            }
        }
        k = k + 1;
    }
    proof {
        assert(s@.take(n as int) =~= s@);
    }
    if acc <= 0x7fff_ffff {
        Some(acc as i32)
    } else {
        None
    }
}

/// The process id a transient directory name encodes: its extension read
/// as a decimal number.
pub open spec fn pid_of_name(name: Seq<char>) -> Option<i32> {
    match extension_of(name) {
        None => None,
        Some(e) => parse_pid_digits(e),
    }
}

/// Reads the owning process id off a transient directory name.
pub fn transient_pid(name: &str) -> (r: Option<i32>)
    ensures
        match r {
            Some(p) => pid_of_name(name@) == Some(p),
            None => pid_of_name(name@) is None,
        },
{
    match crate::paths::extension(name) {
        Some(e) => parse_pid(e.as_str()),
        None => None,
    }
}

/// The transient names owned by a process not in `alive`: an entry whose
/// suffix does not parse as a pid is left alone entirely.
pub open spec fn transient_selection(names: Seq<Seq<char>>, alive: Seq<i32>) -> Seq<Seq<char>>
    decreases names.len(),
{
    if names.len() == 0 {
        Seq::empty()
    } else {
        let rest = transient_selection(names.drop_last(), alive);
        match pid_of_name(names.last()) {
            Some(p) => if !alive.contains(p) {
                rest.push(names.last())
            } else {
                rest
            },
            None => rest,
        }
    }
}

/// Every selected transient is a listed entry whose name encodes a pid
/// outside the alive set.
pub proof fn lemma_transient_selection_members(names: Seq<Seq<char>>, alive: Seq<i32>)
    ensures
        forall|j: int|
            0 <= j < transient_selection(names, alive).len() ==> {
                let n = #[trigger] transient_selection(names, alive)[j];
                names.contains(n) && pid_of_name(n) is Some && !alive.contains(
                    pid_of_name(n)->Some_0,
                )
            },
    decreases names.len(),
{
    if names.len() > 0 {
        lemma_transient_selection_members(names.drop_last(), alive);
        let rest = transient_selection(names.drop_last(), alive);
        assert forall|j: int| 0 <= j < transient_selection(names, alive).len() implies {
            let n = #[trigger] transient_selection(names, alive)[j];
            names.contains(n) && pid_of_name(n) is Some && !alive.contains(pid_of_name(n)->Some_0)
        } by {
            if j < rest.len() {
                assert(transient_selection(names, alive)[j] == rest[j]);
                assert(names.drop_last().contains(rest[j]) ==> names.contains(rest[j])) by {
                    if names.drop_last().contains(rest[j]) {
                        let i = choose|i: int|
                            0 <= i < names.drop_last().len() && names.drop_last()[i] == rest[j];
                        assert(names[i] == rest[j]);
                    }
                }
            } else {
                assert(transient_selection(names, alive)[j] == names.last());
            }
        }
    }
}

/// Whether `v` holds `p`.
pub fn contains_pid(v: &Vec<i32>, p: i32) -> (r: bool)
    ensures
        r == v@.contains(p),
{
    let mut k: usize = 0;
    while k < v.len()
        invariant
            k <= v.len(),
            forall|j: int| 0 <= j < k ==> v@[j] != p,
        decreases v.len() - k,
    {
        if v[k] == p {
            return true;
        }
        k = k + 1;
    }
    false
}

/// Selects, against a given set of live pids, the transient directories
/// whose owning process is dead. An entry whose suffix is not a number is
/// never selected.
pub fn select_transients(names: &Vec<String>, alive: &Vec<i32>) -> (r: Vec<String>)
    ensures
        r.deep_view() == transient_selection(names.deep_view(), alive@),
{
    let mut r: Vec<String> = Vec::new();
    let mut k: usize = 0;
    while k < names.len()
        invariant
            k <= names.len(),
            r.deep_view() == transient_selection(names.deep_view().take(k as int), alive@),
        decreases names.len() - k,
    {
        proof {
            assert(names.deep_view().take(k + 1).drop_last() =~= names.deep_view().take(k as int));
            assert(names.deep_view().take(k + 1).last() == names[k as int]@);
        }
        match transient_pid(names[k].as_str()) {
            Some(p) => {
                if !contains_pid(alive, p) {
                    let ghost old_deep = r.deep_view();
                    r.push(names[k].clone());
                    proof {
                        assert(r.deep_view() =~= old_deep.push(names.deep_view()[k as int]));
                    }
                }
            },
            None => {},
        }
        k = k + 1;
    }
    proof {
        assert(names.deep_view().take(names.len() as int) =~= names.deep_view());
    }
    r
}

/// Relies on nix::sys::signal::kill with a null signal: delivery is
/// suppressed and the call only reports whether the process exists. The
/// outcome depends on the processes running at the instant of the call, so
/// nothing more is promised of it.
#[verifier::external_body]
fn pid_is_alive(pid: i32) -> bool {
    let sig: Option<nix::sys::signal::Signal> = None;
    nix::sys::signal::kill(nix::unistd::Pid::from_raw(pid), sig).is_ok()
}

/// The liveness-checked transient policy: probes each entry's owning pid
/// and selects the entries whose owner is gone. Which pids answer depends
/// on the machine's processes, so the selection is pinned only relative to
/// the set of pids that answered alive.
pub fn select_dead_transients(names: &Vec<String>) -> (r: Vec<String>)
    ensures
        exists|alive: Seq<i32>| r.deep_view() == transient_selection(names.deep_view(), alive),
        forall|j: int|
            0 <= j < r.deep_view().len() ==> names.deep_view().contains(#[trigger] r.deep_view()[j])
                && pid_of_name(r.deep_view()[j]) is Some,
{
    let mut alive: Vec<i32> = Vec::new();
    let mut k: usize = 0;
    while k < names.len()
        decreases names.len() - k,
    {
        match transient_pid(names[k].as_str()) {
            Some(p) => {
                if pid_is_alive(p) {
                    alive.push(p);
                }
            },
            None => {},
        }
        k = k + 1;
    }
    let r = select_transients(names, &alive);
    proof {
        assert(r.deep_view() == transient_selection(names.deep_view(), alive@));
        lemma_transient_selection_members(names.deep_view(), alive@);
    }
    r
}

/// A state-directory entry whose name starts with a dot belongs to the
/// runner itself and is skipped by the top-level link scan.
pub fn is_hidden_name(name: &str) -> (r: bool)
    ensures
        r == (name@.len() > 0 && name@[0] == '.'),
{
    name.unicode_len() > 0 && name.get_char(0) == '.'
}

/// Joins every name onto `base`, keeping order: turns a selection of entry
/// names into the full paths handed to the deletion engine.
pub fn join_all(base: &str, names: &Vec<String>) -> (r: Vec<String>)
    ensures
        r.deep_view().len() == names.len(),
        forall|i: int|
            0 <= i < names.len() ==> #[trigger] r.deep_view()[i] == join_path(
                base@,
                names.deep_view()[i],
            ),
{
    let mut r: Vec<String> = Vec::new();
    let mut k: usize = 0;
    while k < names.len()
        invariant
            k <= names.len(),
            r.len() == k,
            forall|i: int|
                0 <= i < k ==> #[trigger] r.deep_view()[i] == join_path(
                    base@,
                    names.deep_view()[i],
                ),
        decreases names.len() - k,
    {
        let ghost old_deep = r.deep_view();
        r.push(crate::paths::path_join(base, names[k].as_str()));
        proof {
            assert(r.deep_view() =~= old_deep.push(join_path(base@, names.deep_view()[k as int])));
        }
        k = k + 1;
    }
    r
}

/// The directory of persistent container roots under the state directory.
pub open spec fn roots_dir(local_vagga: Seq<char>) -> Seq<char> {
    join_path(local_vagga, dot_roots())
}

/// The by-name policy: resolves each caller-given container name under
/// `.roots`, with no existence filtering — the deletion engine tolerates
/// missing paths.
pub fn select_by_name(local_vagga: &str, names: &Vec<String>) -> (r: Vec<String>)
    ensures
        r.deep_view().len() == names.len(),
        forall|i: int|
            0 <= i < names.len() ==> #[trigger] r.deep_view()[i] == join_path(
                roots_dir(local_vagga@),
                names.deep_view()[i],
            ),
{
    let roots = crate::paths::path_join(local_vagga, ".roots");
    proof {
        reveal_strlit(".roots");
        assert(roots@ == roots_dir(local_vagga@));
    }
    join_all(roots.as_str(), names)
}

/// The everything policy: the single path to delete is the whole state
/// directory.
pub fn select_everything(local_vagga: &String) -> (r: Vec<String>)
    ensures
        r.deep_view() =~= seq![local_vagga@],
{
    let mut r: Vec<String> = Vec::new();
    r.push(local_vagga.clone());
    r
}

} // verus!
