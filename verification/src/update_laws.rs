//! How versions are read and compared, and what is made of the answer about a release.

use crate::text::{
    all_digits, decimal, is_digit, law_decimal, number_of, parts, without_slashes,
};
use crate::update::{
    count_of, digit_run, is_newer, judged, leading_digits, leading_numbers, place, reports, slug,
    version, without_v, CheckError, Found, Update,
};
use crate::words_laws::law_separator_parts;
use vstd::prelude::*;

verus! {

// ── reading versions ──────────────────────────────────────────────────────
proof fn lemma_digit_run(s: Seq<char>)
    ensures
        digit_run(s) <= s.len(),
        all_digits(s) ==> digit_run(s) == s.len(),
        s.len() > 0 && is_digit(s[0]) <==> digit_run(s) > 0,
    decreases s.len(),
{
    if s.len() > 0 && is_digit(s[0]) {
        lemma_digit_run(s.skip(1));
        if all_digits(s) {
            assert forall|i: int| 0 <= i < s.skip(1).len() implies is_digit(
                #[trigger] s.skip(1)[i],
            ) by {
                assert(is_digit(s[i + 1]));
            }
        }
    }
    if s.len() > 0 && all_digits(s) {
        assert(is_digit(s[0]));
    }
}

proof fn lemma_version_seps() -> (seps: Seq<char>)
    ensures
        seps == seq!['.', '-', '+'],
        forall|c: char| #[trigger] seps.contains(c) <==> c == '.' || c == '-' || c == '+',
{
    let seps = seq!['.', '-', '+'];
    assert(seps[0] == '.' && seps[1] == '-' && seps[2] == '+');
    seps
}

/// A version is read number by number: a number alone is a version of one number, and
/// behind a number and a point the reading goes on.
pub proof fn law_version_is_read_by_numbers(n: u32, rest: Seq<char>)
    ensures
        version(decimal(n as nat)) == seq![n],
        version(decimal(n as nat) + seq!['.'] + rest) == seq![n] + version(rest),
        version(Seq::empty()) == Seq::<u32>::empty(),
{
    let seps = lemma_version_seps();
    let d = decimal(n as nat);
    law_decimal(n as nat);
    lemma_digit_run(d);
    assert forall|i: int| 0 <= i < d.len() implies !seps.contains(#[trigger] d[i]) by {
        assert(is_digit(d[i]));
    }
    law_separator_parts(d, '.', rest, seps);
    assert(is_digit(d[0]));
    assert(leading_digits(d) =~= d);
    assert(number_of(d) == Some(n));
    let none = Seq::<Seq<char>>::empty();
    assert(seq![d].skip(1) =~= none);
    assert(leading_numbers(none) =~= Seq::<u32>::empty());
    assert(leading_numbers(seq![d]) =~= seq![n]);
    let all = seq![d] + parts(rest, seps);
    assert(all[0] == d);
    assert(all.skip(1) =~= parts(rest, seps));
    let e = Seq::<char>::empty();
    law_separator_parts(e, '.', rest, seps);
    assert(parts(e, seps) =~= seq![e]);
    lemma_digit_run(e);
    assert(leading_numbers(seq![e]) =~= Seq::<u32>::empty());
}

/// A number too large for 32 bits is left out, and the reading goes on behind it.
pub proof fn law_too_large_number_is_left_out(n: nat, rest: Seq<char>)
    requires
        n > u32::MAX,
    ensures
        version(decimal(n)) == Seq::<u32>::empty(),
        version(decimal(n) + seq!['.'] + rest) == version(rest),
{
    let seps = lemma_version_seps();
    let d = decimal(n);
    law_decimal(n);
    lemma_digit_run(d);
    assert forall|i: int| 0 <= i < d.len() implies !seps.contains(#[trigger] d[i]) by {
        assert(is_digit(d[i]));
    }
    law_separator_parts(d, '.', rest, seps);
    assert(is_digit(d[0]));
    assert(leading_digits(d) =~= d);
    assert(number_of(d) is None);
    let none = Seq::<Seq<char>>::empty();
    assert(seq![d].skip(1) =~= none);
    assert(leading_numbers(none) =~= Seq::<u32>::empty());
    let all = seq![d] + parts(rest, seps);
    assert(all[0] == d);
    assert(all.skip(1) =~= parts(rest, seps));
}

proof fn lemma_stops(a: Seq<Seq<char>>, b: Seq<Seq<char>>)
    requires
        b.len() > 0,
        digit_run(b[0]) == 0,
    ensures
        leading_numbers(a + b) == leading_numbers(a),
    decreases a.len(),
{
    if a.len() == 0 {
        assert(a + b =~= b);
    } else {
        assert((a + b)[0] == a[0]);
        assert((a + b).skip(1) =~= a.skip(1) + b);
        lemma_stops(a.skip(1), b);
    }
}

/// What stands behind a point, a hyphen or a plus sign without a digit first, such as
/// `-beta`, does not count.
pub proof fn law_suffix_does_not_count(s: Seq<char>, c: char, suffix: Seq<char>)
    requires
        c == '.' || c == '-' || c == '+',
        suffix.len() == 0 || !is_digit(suffix[0]),
    ensures
        version(s + seq![c] + suffix) == version(s),
{
    let seps = lemma_version_seps();
    law_separator_parts(s, c, suffix, seps);
    let q = parts(suffix, seps);
    assert(q.len() > 0 && digit_run(q[0]) == 0) by {
        crate::text::lemma_part_len(suffix, seps);
        let n = crate::text::part_len(suffix, seps) as int;
        if n < suffix.len() {
            assert(q[0] == suffix.take(n));
        } else {
            assert(q[0] == suffix);
        }
        lemma_digit_run(q[0]);
        if q[0].len() > 0 {
            assert(q[0][0] == suffix[0]);
        }
    }
    lemma_stops(parts(s, seps), q);
}

// ── comparing versions ────────────────────────────────────────────────────
/// The first number that differs decides: the larger is the newer, whatever follows. A
/// number that is missing counts as zero, and a version without numbers is never newer.
pub proof fn law_first_difference_decides(
    same: Seq<u32>,
    x: u32,
    y: u32,
    p: Seq<u32>,
    q: Seq<u32>,
)
    ensures
        x > y ==> is_newer(same + seq![x] + p, same + seq![y] + q),
        x > y ==> !is_newer(same + seq![y] + q, same + seq![x] + p),
        x > 0 ==> is_newer(same + seq![x] + p, same),
        !is_newer(same + seq![0u32], same),
        !is_newer(same, same + seq![x]),
        !is_newer(Seq::empty(), q),
{
    let a = same + seq![x] + p;
    let b = same + seq![y] + q;
    let n = same.len() as int;
    assert(place(a, n) == x && place(b, n) == y && place(same, n) == 0);
    assert forall|j: int| 0 <= j < n implies #[trigger] place(a, j) == place(b, j) && place(a, j)
        == place(same, j) by {
        assert(a[j] == same[j] && b[j] == same[j]);
    }
    if x > y {
        assert(place(a, n) > place(b, n));
        if is_newer(b, a) {
            let i = choose|i: int|
                0 <= i && #[trigger] place(b, i) > place(a, i) && forall|j: int|
                    0 <= j < i ==> #[trigger] place(b, j) == place(a, j);
            if i < n {
                assert(place(a, i) == place(b, i));
            } else if i > n {
                assert(place(b, n) == place(a, n));
            }
        }
    }
    if x > 0 {
        assert(place(a, n) > place(same, n));
        assert forall|j: int| 0 <= j < n implies #[trigger] place(a, j) == place(same, j) by {
            assert(place(a, j) == place(b, j));
        }
    }
    let z = same + seq![0u32];
    assert forall|j: int| 0 <= j implies #[trigger] place(z, j) == place(same, j) by {
        if j < n {
            assert(z[j] == same[j]);
        }
    }
    let w = same + seq![x];
    assert forall|j: int| 0 <= j implies #[trigger] place(w, j) >= place(same, j) by {
        if j < n {
            assert(w[j] == same[j]);
        }
    }
    assert(!is_newer(same, w)) by {
        if is_newer(same, w) {
            let i = choose|i: int|
                0 <= i && #[trigger] place(same, i) > place(w, i) && forall|j: int|
                    0 <= j < i ==> #[trigger] place(same, j) == place(w, j);
            assert(place(w, i) >= place(same, i));
        }
    }
    assert(!is_newer(z, same)) by {
        if is_newer(z, same) {
            let i = choose|i: int|
                0 <= i && #[trigger] place(z, i) > place(same, i) && forall|j: int|
                    0 <= j < i ==> #[trigger] place(z, j) == place(same, j);
            assert(place(z, i) == place(same, i));
        }
    }
}

// ── the answer ────────────────────────────────────────────────────────────
/// An answer without a tag names no release. Else there is an update exactly if the
/// version in the tag, without the letters `v` before it, is newer than this program's;
/// its page is the one that the answer names, or that of the latest release.
pub proof fn law_what_an_answer_says(
    tag: Option<Seq<char>>,
    url: Option<Seq<char>>,
    repo: Seq<char>,
    local: Seq<char>,
    s: Seq<char>,
)
    ensures
        ({
            let found = judged(tag, url, repo, local);
            let named = tag is Some && tag->0.len() > 0;
            &&& found == Found::NoTag <==> !named
            &&& named && is_newer(version(without_v(tag->0)), version(local)) ==> (
            found matches Found::Newer { version: v, url: u } && v == without_v(tag->0) && u == (
            match url {
                Some(p) => p,
                None => "https://github.com/"@ + repo + "/releases/latest"@,
            }))
            &&& named && !is_newer(version(without_v(tag->0)), version(local)) ==> found
                == Found::UpToDate
        }),
        without_v(seq!['v'] + s) == without_v(s),
        s.len() == 0 || s[0] != 'v' ==> without_v(s) == s,
{
    assert((seq!['v'] + s).skip(1) =~= s);
}

proof fn lemma_no_slash(s: Seq<char>)
    requires
        !s.contains('/'),
    ensures
        count_of(s, '/') == 0,
    decreases s.len(),
{
    if s.len() > 0 {
        assert(s.contains(s[s.len() - 1]));
        assert(!s.drop_last().contains('/')) by {
            if s.drop_last().contains('/') {
                let i = choose|i: int| 0 <= i < s.len() - 1 && s.drop_last()[i] == '/';
                assert(s[i] == '/');
            }
        }
        lemma_no_slash(s.drop_last());
    }
}

proof fn lemma_count_concat(a: Seq<char>, b: Seq<char>, c: char)
    ensures
        count_of(a + b, c) == count_of(a, c) + count_of(b, c),
    decreases b.len(),
{
    if b.len() == 0 {
        assert(a + b =~= a);
    } else {
        assert((a + b).drop_last() =~= a + b.drop_last());
        assert((a + b).last() == b.last());
        lemma_count_concat(a, b.drop_last(), c);
    }
}

/// From the address of a repository, owner and name are read, whatever slashes stand at
/// its end; an address elsewhere, or with more or fewer parts, is none of a repository.
pub proof fn law_owner_and_name(url: Seq<char>, owner: Seq<char>, name: Seq<char>)
    requires
        !owner.contains('/'),
        !name.contains('/'),
        name.len() > 0,
    ensures
        slug("https://github.com/"@ + owner + seq!['/'] + name) == Some(owner + seq!['/'] + name),
        slug(url + seq!['/']) == slug(url),
        slug(url) matches Some(s) ==> count_of(s, '/') == 1 && without_slashes(url)
            == "https://github.com/"@ + s,
        slug("https://github.com/"@ + name) is None,
{
    reveal_strlit("https://github.com/");
    let home = "https://github.com/"@;
    let rest = owner + seq!['/'] + name;
    let full = home + owner + seq!['/'] + name;
    assert(full =~= home + rest);
    assert(name.contains(name[name.len() - 1]));
    assert(full.last() == name.last());
    assert(without_slashes(full) == full);
    assert(full.skip(home.len() as int) =~= rest);
    assert(full.take(home.len() as int) =~= home);
    lemma_no_slash(owner);
    lemma_no_slash(name);
    lemma_count_concat(owner + seq!['/'], name, '/');
    lemma_count_concat(owner, seq!['/'], '/');
    let one = seq!['/'];
    assert(one.drop_last() =~= Seq::<char>::empty());
    assert(one.last() == '/');
    assert(count_of(one.drop_last(), '/') == 0);
    assert(count_of(one, '/') == 1);
    assert((url + seq!['/']).drop_last() =~= url);
    assert((url + seq!['/']).last() == '/');
    match slug(url) {
        Some(s) => {
            let bare = without_slashes(url);
            assert(bare =~= bare.take(home.len() as int) + bare.skip(home.len() as int));
        },
        None => {},
    }
    let short = home + name;
    assert(short.last() == name.last());
    assert(without_slashes(short) == short);
    assert(short.skip(home.len() as int) =~= name);
}

/// A check reports what was found: no release named, nothing newer, or an update with
/// its version and its page, which is that of the latest release where none is given.
pub proof fn law_check_reports_what_was_found(
    r: Result<Option<Update>, CheckError>,
    tag: Option<Seq<char>>,
    url: Option<Seq<char>>,
    repo: Seq<char>,
    local: Seq<char>,
)
    requires
        reports(r, judged(tag, url, repo, local)),
    ensures
        ({
            let named = tag is Some && tag->0.len() > 0;
            let newer = is_newer(version(without_v(tag->0)), version(local));
            &&& !named ==> (r matches Err(CheckError::NoTag))
            &&& named && !newer ==> (r matches Ok(None))
            &&& named && newer ==> (r matches Ok(Some(u)) && u.version@ == without_v(tag->0) && (
            url matches Some(p) ==> u.url@ == p) && (url is None ==> u.url@ == "https://github.com/"@
                + repo + "/releases/latest"@))
        }),
{
}

} // verus!
