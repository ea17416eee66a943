//! The recognition model: its name, and how far its installation has come.

use crate::http::{HttpError, Transfer};
use crate::rounding::{round_to_even, rounded};
use crate::text::{
    chars_of, decimal, digit, len_without_slashes, number_text, string_of, without_slashes,
};
use vstd::prelude::*;

verus! {

/// Where models can be had.
pub const HOST: &'static str = "github.com";

pub const PATH_PREFIX: &'static str = "/k2-fsa/sherpa-onnx/releases/download/asr-models/";

/// A file that every model has.
pub const TOKENS: &'static str = "tokens.txt";

// ── names ─────────────────────────────────────────────────────────────────
/// A path with `/` in place of `\`.
pub open spec fn slashed(s: Seq<char>) -> Seq<char> {
    s.map_values(
        |c: char|
            if c == '\\' {
                '/'
            } else {
                c
            },
    )
}

/// What stands behind the last slash.
pub open spec fn last_part(s: Seq<char>) -> Seq<char>
    decreases s.len(),
{
    if s.len() == 0 || s.last() == '/' {
        Seq::empty()
    } else {
        last_part(s.drop_last()).push(s.last())
    }
}

/// The name of the model's folder: the last part of its path.
pub open spec fn folder_of(path: Seq<char>) -> Seq<char> {
    last_part(without_slashes(slashed(path)))
}

/// The name of the model's folder (`models/foo` gives `foo`).
pub fn model_name(model_path: &str) -> (r: String)
    ensures
        r@ == folder_of(model_path@),
{
    let mut v = chars_of(model_path);
    let mut i: usize = 0;
    while i < v.len()
        invariant
            i <= v@.len(),
            v@.len() == model_path@.len(),
            forall|k: int| 0 <= k < i ==> #[trigger] v@[k] == slashed(model_path@)[k],
            forall|k: int| i <= k < v@.len() ==> #[trigger] v@[k] == model_path@[k],
        decreases v@.len() - i,
    {
        if v[i] == '\\' {
            v[i] = '/';
        }
        i += 1;
    }
    assert(v@ =~= slashed(model_path@));
    let n: usize = len_without_slashes(&v);
    let ghost bare = v@.take(n as int);
    let mut a: usize = n;
    assert(v@.subrange(n as int, n as int) =~= Seq::<char>::empty());
    assert(last_part(bare) + v@.subrange(n as int, n as int) =~= last_part(bare));
    while a > 0 && v[a - 1] != '/'
        invariant
            a <= n <= v@.len(),
            bare == v@.take(n as int),
            last_part(bare) == last_part(v@.take(a as int)) + v@.subrange(a as int, n as int),
        decreases a,
    {
        proof {
            let t = v@.take(a as int);
            assert(t.drop_last() =~= v@.take(a - 1));
            assert(last_part(v@.take(a - 1)).push(t.last()) + v@.subrange(a as int, n as int)
                =~= last_part(v@.take(a - 1)) + v@.subrange(a - 1, n as int));
        }
        a -= 1;
    }
    proof {
        assert(last_part(v@.take(a as int)) =~= Seq::<char>::empty());
        assert(Seq::<char>::empty() + v@.subrange(a as int, n as int) =~= v@.subrange(
            a as int,
            n as int,
        ));
    }
    string_of(&v, a, n)
}

/// The name of a model's folder has no slash of either kind.
pub proof fn law_model_name_is_one_part(path: Seq<char>)
    ensures
        !folder_of(path).contains('/'),
        !folder_of(path).contains('\\'),
{
    let s = slashed(path);
    assert(!s.contains('\\')) by {
        if s.contains('\\') {
            let i = choose|i: int| 0 <= i < s.len() && s[i] == '\\';
            assert(s[i] == (if path[i] == '\\' {
                '/'
            } else {
                path[i]
            }));
        }
    }
    lemma_without_slashes(s);
    lemma_last_part(without_slashes(s));
}

proof fn lemma_without_slashes(s: Seq<char>)
    requires
        !s.contains('\\'),
    ensures
        !without_slashes(s).contains('\\'),
    decreases s.len(),
{
    if s.len() > 0 && s.last() == '/' {
        assert(!s.drop_last().contains('\\')) by {
            if s.drop_last().contains('\\') {
                let i = choose|i: int| 0 <= i < s.len() - 1 && s.drop_last()[i] == '\\';
                assert(s[i] == '\\');
            }
        }
        lemma_without_slashes(s.drop_last());
    }
}

proof fn lemma_last_part(s: Seq<char>)
    requires
        !s.contains('\\'),
    ensures
        !last_part(s).contains('\\'),
        !last_part(s).contains('/'),
    decreases s.len(),
{
    if s.len() > 0 && s.last() != '/' {
        assert(!s.drop_last().contains('\\')) by {
            if s.drop_last().contains('\\') {
                let i = choose|i: int| 0 <= i < s.len() - 1 && s.drop_last()[i] == '\\';
                assert(s[i] == '\\');
            }
        }
        lemma_last_part(s.drop_last());
        let t = last_part(s.drop_last());
        assert(s[s.len() - 1] != '\\');
        assert forall|i: int| 0 <= i < t.len() + 1 implies t.push(s.last())[i] != '/' && t.push(
            s.last(),
        )[i] != '\\' by {
            if i < t.len() {
                assert(t.contains(t[i]));
            }
        }
    }
}

/// The folder for models, in the data directory.
pub fn models_dir() -> (r: String)
    ensures
        r@ == "models"@,
{
    "models".to_owned()
}

/// Is the model in place: its folder was found and has its list of tokens.
pub fn installed(found: bool, has_tokens: bool) -> (r: bool)
    ensures
        r == (found && has_tokens),
{
    found && has_tokens
}

/// The archive of a model.
pub fn archive_name(name: &str) -> (r: String)
    ensures
        r@ == name@ + ".tar.bz2"@,
{
    let mut r: String = name.to_owned();
    r.append(".tar.bz2");
    r
}

/// Where the archive of a model is had from its host.
pub fn archive_path(name: &str) -> (r: String)
    ensures
        r@ == PATH_PREFIX@ + (name@ + ".tar.bz2"@),
{
    let mut r: String = PATH_PREFIX.to_owned();
    let a = archive_name(name);
    r.append(&a);
    r
}

/// The archive was unpacked: is the model there.
pub fn unpacked(name: &str, has_tokens: bool) -> (r: Result<(), String>)
    ensures
        match r {
            Ok(()) => has_tokens,
            Err(e) => !has_tokens && e@ == "в архиве нет папки "@ + name@ + " с tokens.txt"@,
        },
{
    if has_tokens {
        Ok(())
    } else {
        let mut e = "в архиве нет папки ".to_owned();
        e.append(name);
        e.append(" с tokens.txt");
        Err(e)
    }
}

// ── installing ────────────────────────────────────────────────────────────
/// How far the installation has come.
#[derive(PartialEq, Eq, Debug)]
pub enum Status {
    /// Not begun.
    Idle,
    Downloading { got: u64, total: u64 },
    Extracting,
    Done,
    Failed(String),
    Cancelled,
}

/// How far it has come, with the error as characters.
pub enum Progress {
    Idle,
    Downloading { got: u64, total: u64 },
    Extracting,
    Done,
    Failed(Seq<char>),
    Cancelled,
}

impl View for Status {
    type V = Progress;

    open spec fn view(&self) -> Progress {
        match self {
            Status::Idle => Progress::Idle,
            Status::Downloading { got, total } => Progress::Downloading { got: *got, total: *total },
            Status::Extracting => Progress::Extracting,
            Status::Done => Progress::Done,
            Status::Failed(e) => Progress::Failed(e@),
            Status::Cancelled => Progress::Cancelled,
        }
    }
}

impl Status {
    /// A copy.
    pub fn copy(&self) -> (r: Status)
        ensures
            r@ == self@,
    {
        match self {
            Status::Idle => Status::Idle,
            Status::Downloading { got, total } => Status::Downloading { got: *got, total: *total },
            Status::Extracting => Status::Extracting,
            Status::Done => Status::Done,
            Status::Failed(e) => Status::Failed(e.clone()),
            Status::Cancelled => Status::Cancelled,
        }
    }
}

/// The installation of a model in the background.
pub struct Installer {
    pub status: Status,
    pub running: bool,
    pub cancelled: bool,
}

impl Installer {
    pub fn new() -> (r: Installer)
        ensures
            r.status@ == Progress::Idle,
            !r.running,
            !r.cancelled,
    {
        Installer { status: Status::Idle, running: false, cancelled: false }
    }

    /// How far it has come.
    pub fn status(&self) -> (r: Status)
        ensures
            r@ == self.status@,
    {
        self.status.copy()
    }

    pub fn set(&mut self, s: Status)
        ensures
            final(self).status == s,
            final(self).running == old(self).running,
            final(self).cancelled == old(self).cancelled,
    {
        self.status = s;
    }

    /// Puts another status in place, for a look at the window.
    pub fn set_for_test(&mut self, s: Status)
        ensures
            final(self).status == s,
            final(self).running == old(self).running,
            final(self).cancelled == old(self).cancelled,
    {
        self.set(s);
    }

    pub fn is_running(&self) -> (r: bool)
        ensures
            r == self.running,
    {
        self.running
    }

    /// Asks a running installation to stop.
    pub fn cancel(&mut self)
        ensures
            final(self).cancelled,
            final(self).running == old(self).running,
            final(self).status == old(self).status,
    {
        self.cancelled = true;
    }

    /// Begins an installation, unless one is running. Returns whether it began.
    pub fn start(&mut self) -> (r: bool)
        ensures
            r == !old(self).running,
            final(self).running,
            r ==> !final(self).cancelled && final(self).status@ == (Progress::Downloading {
                got: 0,
                total: 0,
            }),
            !r ==> *final(self) == *old(self),
    {
        if self.running {
            return false;
        }
        self.running = true;
        self.cancelled = false;
        self.status = Status::Downloading { got: 0, total: 0 };
        true
    }

    /// May the next block be read: not once a stop was asked for.
    pub fn go_on(&self) -> (r: Result<(), HttpError>)
        ensures
            r == (if self.cancelled {
                Err::<(), HttpError>(HttpError::Cancelled)
            } else {
                Ok(())
            }),
    {
        if self.cancelled {
            Err(HttpError::Cancelled)
        } else {
            Ok(())
        }
    }

    /// A block of the archive came and was kept.
    pub fn progress(&mut self, t: &Transfer)
        ensures
            final(self).status@ == (Progress::Downloading { got: t.got, total: t.total }),
            final(self).running == old(self).running,
            final(self).cancelled == old(self).cancelled,
    {
        self.status = Status::Downloading { got: t.got, total: t.total };
    }

    /// The archive is complete and is being unpacked.
    pub fn extracting(&mut self)
        ensures
            final(self).status@ == Progress::Extracting,
            final(self).running == old(self).running,
            final(self).cancelled == old(self).cancelled,
    {
        self.status = Status::Extracting;
    }

    /// The installation ended. Returns whether the recogniser should be made
    /// anew. An error after a request to stop counts as the stop.
    pub fn finish(&mut self, result: Result<(), String>) -> (r: bool)
        ensures
            !final(self).running,
            final(self).cancelled == old(self).cancelled,
            r == (result is Ok),
            final(self).status@ == (match result {
                Ok(()) => Progress::Done,
                Err(e) => if old(self).cancelled {
                    Progress::Cancelled
                } else {
                    Progress::Failed(e@)
                },
            }),
    {
        self.running = false;
        match result {
            Ok(()) => {
                self.status = Status::Done;
                true
            },
            Err(e) => {
                self.status = if self.cancelled {
                    Status::Cancelled
                } else {
                    Status::Failed(e)
                };
                false
            },
        }
    }
}

// ── sizes in words ────────────────────────────────────────────────────────
pub open spec fn two_to_53() -> int {
    9_007_199_254_740_992
}

/// The distance between neighbouring numbers of double precision at `v`.
pub open spec fn spacing(v: int) -> int
    decreases v,
{
    if v < two_to_53() {
        1
    } else {
        2 * spacing(v / 2)
    }
}

/// The number of double precision nearest to `v`.
pub open spec fn nearest_double(v: int) -> int {
    rounded(v, spacing(v)) * spacing(v)
}

/// Tenths of a megabyte.
pub open spec fn tenths(v: int) -> int {
    rounded(10 * nearest_double(v), 1_048_576)
}

/// A number of bytes in megabytes, with one digit behind the comma.
pub open spec fn megabytes(v: int) -> Seq<char> {
    decimal((tenths(v) / 10) as nat) + ","@ + seq![digit(tenths(v) % 10)]
}

/// How much was downloaded, in words: `12,4 / 23,0 МБ`, or without the whole
/// where it is not known.
pub open spec fn in_words(got: int, total: int) -> Seq<char> {
    if total > 0 {
        megabytes(got) + " / "@ + megabytes(total) + " МБ"@
    } else {
        megabytes(got) + " МБ"@
    }
}

proof fn lemma_spacing(v: int)
    requires
        0 <= v < 0x1_0000_0000_0000_0000,
    ensures
        1 <= spacing(v) <= 2048,
{
    reveal_with_fuel(spacing, 13);
}

fn double_spacing(v: u64) -> (r: u64)
    ensures
        r == spacing(v as int),
        1 <= r <= 2048,
    decreases v,
{
    proof {
        lemma_spacing(v as int);
    }
    if v < 9_007_199_254_740_992 {
        1
    } else {
        let half: u64 = double_spacing(v / 2);
        2 * half
    }
}

fn size_text(v: u64) -> (r: String)
    ensures
        r@ == megabytes(v as int),
{
    let u: u128 = double_spacing(v) as u128;
    let near: u128 = round_to_even(v as u128, u);
    assert(near * u <= 0x1_0000_0000_0000_0000 * 2048) by (nonlinear_arith)
        requires
            near <= 0x1_0000_0000_0000_0000,
            u <= 2048,
    ;
    let x: u128 = near * u;
    let t: u128 = round_to_even(10 * x, 1_048_576);
    proof {
        assert(t <= 10 * x / 1_048_576 + 1);
        assert(t <= 0x1_0000_0000_0000_0000);
    }
    let whole: u64 = (t / 10) as u64;
    let part: u64 = (t % 10) as u64;
    let mut r = number_text(whole);
    r.append(",");
    let d = number_text(part);
    assert(d@ =~= seq![digit(part as int)]);
    r.append(&d);
    r
}

/// How much was downloaded, in words.
pub fn human(got: u64, total: u64) -> (r: String)
    ensures
        r@ == in_words(got as int, total as int),
{
    let mut r = size_text(got);
    if total > 0 {
        r.append(" / ");
        let t = size_text(total);
        r.append(&t);
    }
    r.append(" МБ");
    r
}

} // verus!
