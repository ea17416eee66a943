//! New releases: comparing versions and reading what the release page answers.
//! Nothing is downloaded or installed.

use crate::text::{
    chars_of, is_ascii_digit, is_digit, number_of, opt_text, parse_number, parts, split, string_of,
    texts, without_slashes, len_without_slashes,
};
use vstd::prelude::*;

verus! {

/// The home of the project.
pub const REPOSITORY: &'static str = "https://github.com/sashape/voice-inputter";

/// Who is asked about releases.
pub const API_HOST: &'static str = "api.github.com";

/// The longest answer that is read, in bytes.
pub const REPLY_LIMIT: usize = 524_288;

/// Seconds between two checks: once a day.
pub const EVERY_SECS: u64 = 86_400;

/// Seconds from the start of the program to the first check.
pub const FIRST_DELAY_SECS: u64 = 20;

// ── versions ──────────────────────────────────────────────────────────────
/// How many digits a text begins with.
pub open spec fn digit_run(s: Seq<char>) -> nat
    decreases s.len(),
{
    if s.len() > 0 && is_digit(s[0]) {
        1 + digit_run(s.skip(1))
    } else {
        0
    }
}

/// The digits that a text begins with.
pub open spec fn leading_digits(s: Seq<char>) -> Seq<char> {
    s.take(digit_run(s) as int)
}

/// The numbers that the parts of a version begin with, up to the first part that
/// begins with no digit. A number too large for 32 bits is left out.
pub open spec fn leading_numbers(list: Seq<Seq<char>>) -> Seq<u32>
    decreases list.len(),
{
    if list.len() == 0 || digit_run(list[0]) == 0 {
        Seq::empty()
    } else {
        let rest = leading_numbers(list.skip(1));
        match number_of(leading_digits(list[0])) {
            Some(n) => seq![n] + rest,
            None => rest,
        }
    }
}

/// The numbers of a version. Its parts stand between `.`, `-` and `+`.
pub open spec fn version(s: Seq<char>) -> Seq<u32> {
    leading_numbers(parts(s, seq!['.', '-', '+']))
}

/// The number at a position of a version; zero behind its end.
pub open spec fn place(v: Seq<u32>, i: int) -> u32 {
    if 0 <= i < v.len() {
        v[i]
    } else {
        0
    }
}

/// Version `a` is newer than `b`: it has numbers at all, and the first that
/// differ are larger in `a`.
pub open spec fn is_newer(a: Seq<u32>, b: Seq<u32>) -> bool {
    &&& a.len() > 0
    &&& exists|i: int|
        0 <= i && #[trigger] place(a, i) > place(b, i) && forall|j: int|
            0 <= j < i ==> #[trigger] place(a, j) == place(b, j)
}

fn digits_at_start(v: &Vec<char>) -> (r: usize)
    ensures
        r == digit_run(v@),
        r <= v@.len(),
{
    let mut i: usize = 0;
    assert(v@.skip(0) =~= v@);
    while i < v.len() && is_ascii_digit(v[i])
        invariant
            i <= v@.len(),
            digit_run(v@) == i + digit_run(v@.skip(i as int)),
        decreases v@.len() - i,
    {
        assert(v@.skip(i as int)[0] == v@[i as int]);
        assert(v@.skip(i as int).skip(1) =~= v@.skip(i + 1));
        i += 1;
    }
    assert(digit_run(v@.skip(i as int)) == 0) by {
        if i < v@.len() {
            assert(v@.skip(i as int)[0] == v@[i as int]);
        }
    }
    i
}

/// The numbers of a version.
pub fn parse_version(s: &str) -> (r: Vec<u32>)
    ensures
        r@ == version(s@),
{
    let seps: [char; 3] = ['.', '-', '+'];
    let list = split(s, &seps);
    assert(seps@ =~= seq!['.', '-', '+']);
    let ghost all = texts(list@);
    let mut out: Vec<u32> = Vec::new();
    let mut i: usize = 0;
    assert(all.skip(0) =~= all);
    assert(out@ + leading_numbers(all) =~= leading_numbers(all));
    while i < list.len()
        invariant
            i <= list@.len(),
            all == texts(list@),
            all == parts(s@, seq!['.', '-', '+']),
            out@ + leading_numbers(all.skip(i as int)) == leading_numbers(all),
        decreases list@.len() - i,
    {
        let ghost was = out@;
        let ghost rest = all.skip(i as int);
        assert(rest[0] == list@[i as int]@);
        assert(rest.skip(1) =~= all.skip(i + 1));
        let v = chars_of(&list[i]);
        let n: usize = digits_at_start(&v);
        if n == 0 {
            assert(leading_numbers(rest) =~= Seq::<u32>::empty());
            assert(out@ + Seq::<u32>::empty() =~= out@);
            return out;
        }
        let d = string_of(&v, 0, n);
        assert(d@ =~= leading_digits(rest[0]));
        if let Some(x) = parse_number(&d) {
            out.push(x);
            assert(was + (seq![x] + leading_numbers(rest.skip(1))) =~= out@ + leading_numbers(
                rest.skip(1),
            ));
        }
        i += 1;
    }
    assert(out@ + leading_numbers(all.skip(i as int)) =~= out@);
    out
}

/// Is version `remote` newer than `local`, by their numbers: 0.10.0 is newer
/// than 0.9.9, and what follows the numbers, such as `-beta`, does not count.
pub fn newer(remote: &str, local: &str) -> (r: bool)
    ensures
        r == is_newer(version(remote@), version(local@)),
{
    let a = parse_version(remote);
    let b = parse_version(local);
    if a.len() == 0 {
        return false;
    }
    let n: usize = if a.len() > b.len() {
        a.len()
    } else {
        b.len()
    };
    let mut i: usize = 0;
    while i < n
        invariant
            i <= n,
            n >= a@.len(),
            n >= b@.len(),
            a@ == version(remote@),
            b@ == version(local@),
            a@.len() > 0,
            forall|j: int| 0 <= j < i ==> #[trigger] place(a@, j) == place(b@, j),
        decreases n - i,
    {
        let x: u32 = if i < a.len() {
            a[i]
        } else {
            0
        };
        let y: u32 = if i < b.len() {
            b[i]
        } else {
            0
        };
        assert(x == place(a@, i as int) && y == place(b@, i as int));
        if x != y {
            proof {
                if x < y && is_newer(a@, b@) {
                    let k = choose|k: int|
                        0 <= k && #[trigger] place(a@, k) > place(b@, k) && forall|j: int|
                            0 <= j < k ==> #[trigger] place(a@, j) == place(b@, j);
                    assert(place(a@, i as int) != place(b@, i as int));
                }
            }
            return x > y;
        }
        i += 1;
    }
    proof {
        if is_newer(a@, b@) {
            let k = choose|k: int|
                0 <= k && #[trigger] place(a@, k) > place(b@, k) && forall|j: int|
                    0 <= j < k ==> #[trigger] place(a@, j) == place(b@, j);
            assert(k < n);
        }
    }
    false
}

/// No version is newer than itself, and of two versions at most one is newer.
pub proof fn law_newer_asymmetric(a: Seq<u32>, b: Seq<u32>)
    ensures
        !is_newer(a, a),
        !(is_newer(a, b) && is_newer(b, a)),
{
    if is_newer(a, b) && is_newer(b, a) {
        let i = choose|i: int|
            0 <= i && #[trigger] place(a, i) > place(b, i) && forall|j: int|
                0 <= j < i ==> #[trigger] place(a, j) == place(b, j);
        let k = choose|k: int|
            0 <= k && #[trigger] place(b, k) > place(a, k) && forall|j: int|
                0 <= j < k ==> #[trigger] place(b, j) == place(a, j);
        if i < k {
            assert(place(b, i) == place(a, i));
        } else if k < i {
            assert(place(a, k) == place(b, k));
        }
    }
}

/// What is newer than a newer version is newer.
pub proof fn law_newer_transitive(a: Seq<u32>, b: Seq<u32>, c: Seq<u32>)
    requires
        is_newer(a, b),
        is_newer(b, c),
    ensures
        is_newer(a, c),
{
    let i = choose|i: int|
        0 <= i && #[trigger] place(a, i) > place(b, i) && forall|j: int|
            0 <= j < i ==> #[trigger] place(a, j) == place(b, j);
    let k = choose|k: int|
        0 <= k && #[trigger] place(b, k) > place(c, k) && forall|j: int|
            0 <= j < k ==> #[trigger] place(b, j) == place(c, j);
    let m = if i < k {
        i
    } else {
        k
    };
    assert(place(a, m) >= place(b, m) >= place(c, m)) by {
        if m < i {
            assert(place(a, m) == place(b, m));
        }
        if m < k {
            assert(place(b, m) == place(c, m));
        }
    }
    assert(place(a, m) > place(c, m));
    assert forall|j: int| 0 <= j < m implies #[trigger] place(a, j) == place(c, j) by {
        assert(place(b, j) == place(c, j));
    }
}

/// Of two versions with numbers, one is newer than the other unless their
/// numbers agree everywhere, where missing ones count as zero.
pub proof fn law_newer_total(a: Seq<u32>, b: Seq<u32>)
    requires
        a.len() > 0,
        b.len() > 0,
    ensures
        is_newer(a, b) || is_newer(b, a) || forall|i: int|
            0 <= i ==> #[trigger] place(a, i) == place(b, i),
{
    if exists|i: int| 0 <= i && #[trigger] place(a, i) != place(b, i) {
        let i = choose|i: int| 0 <= i && #[trigger] place(a, i) != place(b, i);
        let m = first_difference(a, b, i);
        assert forall|j: int| 0 <= j < m implies #[trigger] place(b, j) == place(a, j) by {
            assert(place(a, j) == place(b, j));
        }
        if place(a, m) > place(b, m) {
            assert(is_newer(a, b));
        } else {
            assert(place(b, m) > place(a, m));
            assert(is_newer(b, a));
        }
    }
}

proof fn first_difference(a: Seq<u32>, b: Seq<u32>, i: int) -> (m: int)
    requires
        0 <= i,
        place(a, i) != place(b, i),
    ensures
        0 <= m <= i,
        place(a, m) != place(b, m),
        forall|j: int| 0 <= j < m ==> #[trigger] place(a, j) == place(b, j),
    decreases i,
{
    if exists|k: int| 0 <= k < i && #[trigger] place(a, k) != place(b, k) {
        let k = choose|k: int| 0 <= k < i && #[trigger] place(a, k) != place(b, k);
        first_difference(a, b, k)
    } else {
        i
    }
}

// ── the release page ──────────────────────────────────────────────────────
/// How often a character stands in a text.
pub open spec fn count_of(s: Seq<char>, c: char) -> nat
    decreases s.len(),
{
    if s.len() == 0 {
        0
    } else {
        count_of(s.drop_last(), c) + (if s.last() == c {
            1nat
        } else {
            0nat
        })
    }
}

/// Owner and name of a repository, joined by a slash, from its address.
pub open spec fn slug(url: Seq<char>) -> Option<Seq<char>> {
    let bare = without_slashes(url);
    let home = "https://github.com/"@;
    let rest = bare.skip(home.len() as int);
    if home.len() <= bare.len() && bare.take(home.len() as int) == home && count_of(rest, '/')
        == 1 {
        Some(rest)
    } else {
        None
    }
}

/// Owner and name of a repository from its address.
pub fn slug_of(url: &str) -> (r: Option<String>)
    ensures
        opt_text(r) == slug(url@),
{
    let v = chars_of(url);
    let n: usize = len_without_slashes(&v);
    let ghost bare = v@.take(n as int);
    assert(bare == without_slashes(url@));
    let home = chars_of("https://github.com/");
    let ghost m = home@.len() as int;
    if home.len() > n || !crate::text::stands_at(&v, &home, 0) {
        proof {
            if home@.len() <= n {
                assert(bare.take(m) =~= v@.subrange(0, m));
            }
        }
        return None;
    }
    assert(bare.take(m) =~= v@.subrange(0, m));
    let rest = string_of(&v, home.len(), n);
    assert(rest@ =~= bare.skip(m));
    let w = chars_of(&rest);
    let mut slashes: usize = 0;
    let mut i: usize = 0;
    assert(w@.take(0) =~= Seq::<char>::empty());
    while i < w.len()
        invariant
            i <= w@.len(),
            slashes == count_of(w@.take(i as int), '/'),
            slashes <= i,
        decreases w@.len() - i,
    {
        assert(w@.take(i + 1).drop_last() =~= w@.take(i as int));
        if w[i] == '/' {
            slashes += 1;
        }
        i += 1;
    }
    assert(w@.take(i as int) =~= w@);
    if slashes == 1 {
        Some(rest)
    } else {
        None
    }
}

/// Owner and name of this project's repository.
pub fn repo_slug() -> (r: Option<String>)
    ensures
        opt_text(r) == slug(REPOSITORY@),
{
    slug_of(REPOSITORY)
}

/// Where the latest release of a repository is described.
pub fn release_path(repo: &str) -> (r: String)
    ensures
        r@ == "/repos/"@ + repo@ + "/releases/latest"@,
{
    let mut r = "/repos/".to_owned();
    r.append(repo);
    r.append("/releases/latest");
    r
}

/// The page of a repository's latest release.
pub open spec fn latest_page(repo: Seq<char>) -> Seq<char> {
    "https://github.com/"@ + repo + "/releases/latest"@
}

/// A release that is newer than this program.
#[derive(PartialEq, Eq, Debug)]
pub struct Update {
    pub version: String,
    pub url: String,
}

impl Update {
    /// A copy.
    pub fn copy(&self) -> (r: Update)
        ensures
            r.version@ == self.version@,
            r.url@ == self.url@,
    {
        Update { version: self.version.clone(), url: self.url.clone() }
    }
}

/// Why a check gave no answer.
#[derive(PartialEq, Eq, Debug)]
pub enum CheckError {
    /// The answer is no JSON; with what the parser says.
    BadReply(String),
    /// The answer names no release.
    NoTag,
}

impl CheckError {
    /// The error in words.
    pub fn message(&self) -> (r: String)
        ensures
            r@ == (match self {
                CheckError::BadReply(why) => "ответ не разобран: "@ + why@,
                CheckError::NoTag => "в ответе нет tag_name"@,
            }),
    {
        match self {
            CheckError::BadReply(why) => {
                let mut r = "ответ не разобран: ".to_owned();
                r.append(why);
                r
            },
            CheckError::NoTag => "в ответе нет tag_name".to_owned(),
        }
    }
}

/// A JSON value.
#[verifier::external_type_specification]
#[verifier::external_body]
pub struct ExValue(serde_json::Value);

/// The members of a JSON object whose values are strings: key and value. Empty
/// for a value that is no object.
pub uninterp spec fn string_members(v: serde_json::Value) -> Map<Seq<char>, Seq<char>>;

/// What `serde_json::from_str` makes of a text: the string members of the value,
/// or the text of the error.
pub uninterp spec fn json_parsed(body: Seq<char>) -> Result<
    Map<Seq<char>, Seq<char>>,
    Seq<char>,
>;

/// Calls `serde_json::from_str` for a value of any shape. Which value or which
/// error it gives is named `json_parsed`.
#[verifier::external_body]
fn parse_json(body: &str) -> (r: Result<serde_json::Value, String>)
    ensures
        match r {
            Ok(v) => json_parsed(body@) == Ok::<Map<Seq<char>, Seq<char>>, Seq<char>>(
                string_members(v),
            ),
            Err(e) => json_parsed(body@) == Err::<Map<Seq<char>, Seq<char>>, Seq<char>>(e@),
        },
{
    serde_json::from_str::<serde_json::Value>(body).map_err(|e| e.to_string())
}

/// Indexes a `serde_json::Value` with a key and asks for a string by
/// `Value::as_str`: gives the member's value if the value is an object that has
/// the key with a string, else nothing.
#[verifier::external_body]
fn string_member(v: &serde_json::Value, key: &str) -> (r: Option<String>)
    ensures
        opt_text(r) == (if string_members(*v).dom().contains(key@) {
            Some(string_members(*v)[key@])
        } else {
            None
        }),
{
    v[key].as_str().map(|s| s.to_string())
}

/// A text without the letters `v` at its start.
pub open spec fn without_v(s: Seq<char>) -> Seq<char>
    decreases s.len(),
{
    if s.len() > 0 && s[0] == 'v' {
        without_v(s.skip(1))
    } else {
        s
    }
}

/// What a check finds: an update, or none where this program is up to date.
pub enum Found {
    NoTag,
    UpToDate,
    Newer { version: Seq<char>, url: Seq<char> },
}

/// What follows from the tag and the page of the latest release.
pub open spec fn judged(
    tag: Option<Seq<char>>,
    url: Option<Seq<char>>,
    repo: Seq<char>,
    local: Seq<char>,
) -> Found {
    if tag is None || tag->0.len() == 0 {
        Found::NoTag
    } else if is_newer(version(without_v(tag->0)), version(local)) {
        Found::Newer {
            version: without_v(tag->0),
            url: match url {
                Some(u) => u,
                None => latest_page(repo),
            },
        }
    } else {
        Found::UpToDate
    }
}

/// The result of a check says what was found.
pub open spec fn reports(r: Result<Option<Update>, CheckError>, f: Found) -> bool {
    match f {
        Found::NoTag => r matches Err(CheckError::NoTag),
        Found::UpToDate => r matches Ok(None),
        Found::Newer { version, url } => r matches Ok(Some(u)) && u.version@ == version && u.url@
            == url,
    }
}

/// Judges the latest release by its tag and its page. `local` is the version to
/// compare with; without a page, that of the repository's latest release counts.
pub fn judge(tag: Option<String>, url: Option<String>, repo: &str, local: &str) -> (r: Result<
    Option<Update>,
    CheckError,
>)
    ensures
        reports(r, judged(opt_text(tag), opt_text(url), repo@, local@)),
{
    let tag = match tag {
        Some(t) => t,
        None => return Err(CheckError::NoTag),
    };
    let v = chars_of(&tag);
    if v.len() == 0 {
        return Err(CheckError::NoTag);
    }
    let mut i: usize = 0;
    assert(v@.skip(0) =~= v@);
    while i < v.len() && v[i] == 'v'
        invariant
            i <= v@.len(),
            without_v(v@) == without_v(v@.skip(i as int)),
        decreases v@.len() - i,
    {
        assert(v@.skip(i as int)[0] == v@[i as int]);
        assert(v@.skip(i as int).skip(1) =~= v@.skip(i + 1));
        i += 1;
    }
    assert(without_v(v@.skip(i as int)) == v@.skip(i as int)) by {
        if i < v@.len() {
            assert(v@.skip(i as int)[0] == v@[i as int]);
        }
    }
    let remote = string_of(&v, i, v.len());
    assert(remote@ =~= v@.skip(i as int));
    if newer(&remote, local) {
        let page = match url {
            Some(u) => u,
            None => {
                let mut p = "https://github.com/".to_owned();
                p.append(repo);
                p.append("/releases/latest");
                p
            },
        };
        Ok(Some(Update { version: remote, url: page }))
    } else {
        Ok(None)
    }
}

/// The value of a key in a map.
pub open spec fn member(m: Map<Seq<char>, Seq<char>>, key: Seq<char>) -> Option<Seq<char>> {
    if m.dom().contains(key) {
        Some(m[key])
    } else {
        None
    }
}

/// Reads the answer about the latest release of a repository and compares it
/// with the version `local`. `Ok(None)`: there is no newer release.
pub fn check(body: &str, repo: &str, local: &str) -> (r: Result<Option<Update>, CheckError>)
    ensures
        match json_parsed(body@) {
            Ok(m) => reports(
                r,
                judged(member(m, "tag_name"@), member(m, "html_url"@), repo@, local@),
            ),
            Err(e) => r matches Err(CheckError::BadReply(why)) && why@ == e,
        },
{
    match parse_json(body) {
        Ok(v) => judge(
            string_member(&v, "tag_name"),
            string_member(&v, "html_url"),
            repo,
            local,
        ),
        Err(e) => Err(CheckError::BadReply(e)),
    }
}

/// The newest release that was found so far.
pub struct Updates {
    pub found: Option<Update>,
}

pub open spec fn same_update(a: Option<Update>, b: Option<Update>) -> bool {
    match (a, b) {
        (Some(x), Some(y)) => x.version@ == y.version@ && x.url@ == y.url@,
        (None, None) => true,
        _ => false,
    }
}

impl Updates {
    pub fn new() -> (r: Updates)
        ensures
            r.found is None,
    {
        Updates { found: None }
    }

    /// The update that was found, if any.
    pub fn available(&self) -> (r: Option<Update>)
        ensures
            same_update(r, self.found),
            match self.found {
                Some(u) => r is Some && r->0.version@ == u.version@ && r->0.url@ == u.url@,
                None => r is None,
            },
    {
        match &self.found {
            Some(u) => Some(u.copy()),
            None => None,
        }
    }

    /// Takes in the result of a check. Returns whether the windows should be
    /// told: only a found update is kept and told.
    pub fn record(&mut self, result: Result<Option<Update>, CheckError>) -> (r: bool)
        ensures
            match result {
                Ok(Some(u)) => r && final(self).found == Some(u),
                _ => !r && *final(self) == *old(self),
            },
    {
        match result {
            Ok(Some(u)) => {
                self.found = Some(u);
                true
            },
            _ => false,
        }
    }
}

/// What is found is newer than this program, whatever the answer says.
pub proof fn law_found_is_newer(
    tag: Option<Seq<char>>,
    url: Option<Seq<char>>,
    repo: Seq<char>,
    local: Seq<char>,
)
    ensures
        judged(tag, url, repo, local) matches Found::Newer { version: v, .. } ==> is_newer(
            version(v),
            version(local),
        ),
{
}

} // verus!
