//! Where a model comes from, how its download is told and ends, which of its files are
//! taken, and texts as the system takes and gives them.

use crate::http::{all_of, outcome, HttpError};
use crate::model::{
    folder_of, in_words, last_part, megabytes, nearest_double, slashed, spacing, tenths,
    Progress,
};
use crate::model_ui::{alt_label, button_row, labelled, ticked, Dlg, Next};
use crate::rounding::{law_rounded_to_the_nearest, rounded};
use crate::startup::{is_ours, registry_text};
use crate::stt::{any_fit, fault, fits, is_int8, is_picked};
use crate::text::{decimal, has_part, occurs_at, without_slashes};
use crate::utf16::{decoded, encoded, units};
use crate::win_ui::{ellipsized, law_longest_fit, longest_fit};
use vstd::arithmetic::div_mod::lemma_fundamental_div_mod_converse;
use vstd::prelude::*;
use vstd::utf8::{decode_utf8, valid_utf8};

verus! {

// ── names ─────────────────────────────────────────────────────────────────
proof fn lemma_last_part_whole(s: Seq<char>)
    requires
        !s.contains('/'),
    ensures
        last_part(s) == s,
    decreases s.len(),
{
    if s.len() > 0 {
        assert(s.contains(s[s.len() - 1]));
        assert(!s.drop_last().contains('/')) by {
            if s.drop_last().contains('/') {
                let i = choose|i: int| 0 <= i < s.len() - 1 && s.drop_last()[i] == '/';
                assert(s[i] == '/');
            }
        }
        lemma_last_part_whole(s.drop_last());
        assert(last_part(s) =~= s);
    } else {
        assert(last_part(s) =~= s);
    }
}

proof fn lemma_last_part_behind(a: Seq<char>, s: Seq<char>)
    requires
        !s.contains('/'),
    ensures
        last_part(a + seq!['/'] + s) == s,
    decreases s.len(),
{
    let t = a + seq!['/'] + s;
    if s.len() == 0 {
        assert(t.last() == '/');
        assert(last_part(t) =~= s);
    } else {
        assert(s.contains(s[s.len() - 1]));
        assert(t.last() == s.last());
        assert(t.drop_last() =~= a + seq!['/'] + s.drop_last());
        assert(!s.drop_last().contains('/')) by {
            if s.drop_last().contains('/') {
                let i = choose|i: int| 0 <= i < s.len() - 1 && s.drop_last()[i] == '/';
                assert(s[i] == '/');
            }
        }
        lemma_last_part_behind(a, s.drop_last());
        assert(last_part(t) =~= s);
    }
}

/// The name of a model's folder is what stands behind the last slash of its path, of
/// either kind; slashes at the end of the path do not count.
pub proof fn law_name_of_the_folder(dir: Seq<char>, name: Seq<char>, c: char)
    requires
        name.len() > 0,
        !name.contains('/'),
        !name.contains('\\'),
        c == '/' || c == '\\',
    ensures
        folder_of(name) == name,
        folder_of(dir + seq![c] + name) == name,
        folder_of(dir + seq![c]) == folder_of(dir),
{
    assert(slashed(name) =~= name) by {
        assert forall|i: int| 0 <= i < name.len() implies slashed(name)[i] == name[i] by {
            assert(name.contains(name[i]));
        }
    }
    assert(name.contains(name[name.len() - 1]));
    lemma_last_part_whole(name);
    let full = dir + seq![c] + name;
    assert(slashed(full) =~= slashed(dir) + seq!['/'] + name) by {
        assert forall|i: int| 0 <= i < full.len() implies slashed(full)[i] == (slashed(dir) + seq![
            '/',
        ] + name)[i] by {
            if i > dir.len() {
                assert(slashed(name)[i - dir.len() - 1] == name[i - dir.len() - 1]);
            }
        }
    }
    assert(slashed(full).last() == name.last());
    assert(without_slashes(slashed(full)) == slashed(full));
    lemma_last_part_behind(slashed(dir), name);
    let ended = dir + seq![c];
    assert(slashed(ended) =~= slashed(dir).push('/'));
    assert(slashed(ended).drop_last() =~= slashed(dir));
    assert(slashed(ended).last() == '/');
}

// ── sizes ─────────────────────────────────────────────────────────────────
/// A size is told in megabytes with one digit behind the comma, the nearest there is;
/// the whole is told with it where it is known.
pub proof fn law_size_in_words(got: int, total: int)
    requires
        0 <= got < 0x10_0000_0000_0000,
        0 <= total < 0x10_0000_0000_0000,
    ensures
        2 * (10 * got - 1_048_576 * tenths(got)) <= 1_048_576,
        2 * (1_048_576 * tenths(got) - 10 * got) <= 1_048_576,
        megabytes(got) == decimal((tenths(got) / 10) as nat) + seq![','] + seq![
            (0x30 + tenths(got) % 10) as char,
        ],
        total > 0 ==> in_words(got, total) == megabytes(got) + " / "@ + megabytes(total) + " МБ"@,
        total == 0 ==> in_words(got, total) == megabytes(got) + " МБ"@,
{
    reveal_strlit(",");
    assert(","@ =~= seq![',']);
    assert(rounded(got, 1) == got) by {
        assert(got % 1 == 0 && got / 1 == got);
    }
    assert(nearest_double(got) == got);
    let n = 10 * got;
    assert(n == 1_048_576 * (n / 1_048_576) + n % 1_048_576);
}

// ── the window about the model ────────────────────────────────────────────
/// The window offers to download a model that is missing, and to try again where that
/// failed, telling why. The other button stops what is under way, closes the window when
/// all is done, and else puts it off.
pub proof fn law_window_about_the_model(p: Progress)
    ensures
        p is Idle || p is Cancelled ==> labelled(p).2 == Some("Скачать"@),
        p is Failed ==> labelled(p).2 == Some("Повторить"@) && labelled(p).1 == p->Failed_0,
        p is Downloading || p is Extracting || p is Done ==> labelled(p).2 is None,
        p matches Progress::Downloading { got, total } ==> labelled(p).1 == in_words(
            got as int,
            total as int,
        ),
        p is Downloading || p is Extracting ==> alt_label(p) == "Отмена"@,
        p is Done ==> alt_label(p) == "Закрыть"@,
        p is Idle || p is Cancelled || p is Failed ==> alt_label(p) == "Не сейчас"@,
        button_row(p) == (match labelled(p).2 {
            Some(m) => seq![(0u8, m), (1u8, alt_label(p))],
            None => seq![(1u8, alt_label(p))],
        }),
{
}

/// The window is drawn while something moves in it, and waits else; when all is done it
/// stays for a little more than a second and a half, counted from the tick that first
/// saw it.
pub proof fn law_timer_of_the_window(d: Dlg, p: Progress, hovering: bool, now: u64)
    ensures
        !(p is Done) ==> ticked(d, p, hovering, now) == (
            d,
            if p is Downloading || p is Extracting || hovering {
                Next::Draw
            } else {
                Next::Wait
            },
        ),
        p is Done && d.done_at is None ==> ticked(d, p, hovering, now) == (
            Dlg { done_at: Some(now), ..d },
            Next::Draw,
        ),
        p is Done ==> (d.done_at matches Some(t) ==> ticked(d, p, hovering, now) == (
            d,
            if now - t > 1_600_000_000 {
                Next::Close
            } else {
                Next::Draw
            },
        )),
{
}

// ── the download ──────────────────────────────────────────────────────────
/// The pieces of an answer are put together in their order.
pub proof fn law_pieces_in_order(a: Seq<Seq<u8>>, b: Seq<Seq<u8>>, c: Seq<u8>)
    ensures
        all_of(Seq::empty()) == Seq::<u8>::empty(),
        all_of(seq![c]) == c,
        all_of(a + b) == all_of(a) + all_of(b),
    decreases b.len(),
{
    let one = seq![c];
    assert(one.drop_last() =~= Seq::<Seq<u8>>::empty());
    assert(one.last() == c);
    assert(all_of(one.drop_last()) =~= Seq::<u8>::empty());
    assert(all_of(one) =~= c);
    if b.len() == 0 {
        assert(a + b =~= a);
        assert(all_of(a) + all_of(b) =~= all_of(a));
    } else {
        assert((a + b).drop_last() =~= a + b.drop_last());
        assert((a + b).last() == b.last());
        law_pieces_in_order(a, b.drop_last(), c);
        assert(all_of(a + b) =~= all_of(a) + all_of(b));
    }
}

/// An answer is good exactly if the server said 200, nothing is missing of what was
/// announced, it is within the limit and it is UTF-8; then it is its text. Else the
/// first thing that is wrong is told.
pub proof fn law_good_answers(
    status: Option<u32>,
    length: Option<u32>,
    chunks: Seq<Seq<u8>>,
    limit: usize,
)
    ensures
        ({
            let r = outcome(status, length, chunks, limit);
            let body = all_of(chunks);
            let fits = body.len() <= limit;
            let whole = length matches Some(n) ==> body.len() >= n;
            &&& r is Ok <==> status == Some(200u32) && fits && whole && valid_utf8(body)
            &&& r is Ok ==> r == Ok::<Seq<char>, HttpError>(decode_utf8(body))
            &&& status matches Some(code) ==> code != 200 ==> r == Err::<Seq<char>, HttpError>(
                HttpError::Status(code),
            )
            &&& status is None ==> r == Err::<Seq<char>, HttpError>(HttpError::Status(0))
            &&& status == Some(200u32) && !fits ==> r == Err::<Seq<char>, HttpError>(
                HttpError::Cancelled,
            )
            &&& status == Some(200u32) && fits && !whole ==> r == Err::<Seq<char>, HttpError>(
                HttpError::Truncated,
            )
            &&& status == Some(200u32) && fits && whole && !valid_utf8(body) ==> r == Err::<
                Seq<char>,
                HttpError,
            >(HttpError::NotUtf8)
        }),
{
}

// ── the files of a model ──────────────────────────────────────────────────
/// A file is one for a key exactly if the key is in its name and the name ends in
/// `.onnx`; it is a small one if `int8` is in its name.
pub proof fn law_which_files_fit(
    name: Seq<char>,
    key: Seq<char>,
    a: Seq<char>,
    b: Seq<char>,
)
    ensures
        fits(a + key + b + ".onnx"@, key),
        fits(name, key) ==> has_part(name, key) && exists|x: Seq<char>|
            name == #[trigger] (x + ".onnx"@),
        (exists|x: Seq<char>| name == #[trigger] (x + ".onnx"@)) && has_part(name, key) ==> fits(
            name,
            key,
        ),
        is_int8(name) <==> has_part(name, "int8"@),
{
    let end = ".onnx"@;
    let full = a + key + b + end;
    let n = (full.len() - end.len()) as int;
    assert(full.subrange(n, n + end.len()) =~= end);
    assert(full.subrange(a.len() as int, (a.len() + key.len()) as int) =~= key);
    assert(occurs_at(full, key, a.len() as int));
    if fits(name, key) {
        let m = name.len() - end.len();
        assert(name =~= name.take(m) + end) by {
            assert(name.subrange(m, m + end.len()) == end);
            assert forall|i: int| m <= i < name.len() implies name[i] == end[i - m] by {
                assert(name.subrange(m, m + end.len())[i - m] == name[i]);
            }
        }
    }
    if (exists|x: Seq<char>| name == #[trigger] (x + end)) && has_part(name, key) {
        let x = choose|x: Seq<char>| name == #[trigger] (x + end);
        let m = x.len() as int;
        assert(name.subrange(m, m + end.len()) =~= end);
    }
}

/// The file that is taken for a key: the first small one, or if there is none the first
/// of all that fit; none exactly if none fits.
pub proof fn law_which_file_is_taken(
    names: Seq<Seq<char>>,
    key: Seq<char>,
    r: Option<usize>,
    k: int,
)
    requires
        is_picked(names, key, r),
        0 <= k < names.len(),
        fits(names[k], key),
    ensures
        r matches Some(i) && i < names.len() && fits(names[i as int], key) && (has_part(
            names[k],
            "int8"@,
        ) ==> has_part(names[i as int], "int8"@) && i <= k) && (!has_part(
            names[i as int],
            "int8"@,
        ) ==> i <= k),
{
    assert(any_fit(names, key, false));
    match r {
        Some(i) => {
            if is_int8(names[k]) {
                assert(any_fit(names, key, true));
            }
            if k < i {
                assert(!(fits(names[k], key) && (any_fit(names, key, true) ==> is_int8(names[k]))));
            }
        },
        None => {},
    }
}

/// A model's folder is good exactly if it is there and has a file for each of the three
/// keys and the list of tokens; else the first thing that is missing is told, with the
/// folder.
pub proof fn law_good_folder(
    dir: Seq<char>,
    is_dir: bool,
    names: Seq<Seq<char>>,
    has_tokens: bool,
)
    ensures
        ({
            let e = exists|k: int| 0 <= k < names.len() && fits(#[trigger] names[k], "encoder"@);
            let d = exists|k: int| 0 <= k < names.len() && fits(#[trigger] names[k], "decoder"@);
            let j = exists|k: int| 0 <= k < names.len() && fits(#[trigger] names[k], "joiner"@);
            let r = fault(dir, is_dir, names, has_tokens);
            &&& r is None <==> is_dir && e && d && j && has_tokens
            &&& !is_dir ==> r == Some("Папка модели не найдена: "@ + dir)
            &&& is_dir && !e ==> r == Some(
                "В модели не найден файл *"@ + "encoder"@ + "*.onnx: "@ + dir,
            )
            &&& is_dir && e && !d ==> r == Some(
                "В модели не найден файл *"@ + "decoder"@ + "*.onnx: "@ + dir,
            )
            &&& is_dir && e && d && !j ==> r == Some(
                "В модели не найден файл *"@ + "joiner"@ + "*.onnx: "@ + dir,
            )
            &&& is_dir && e && d && j && !has_tokens ==> r == Some(
                "В модели нет tokens.txt: "@ + dir,
            )
        }),
{
}

// ── starting with the system ──────────────────────────────────────────────
/// The program starts with the system exactly if the registry has a command that is
/// its path in quotation marks or has its name in it; the command ends before the first
/// zero, and without a zero there is none.
pub proof fn law_starts_with_the_system(
    cur: Seq<char>,
    lower: Seq<char>,
    exe: Seq<char>,
    buf: Seq<u16>,
    n: int,
)
    ensures
        is_ours(cur, lower, exe) <==> cur.len() > 0 && (cur == seq!['"'] + exe + seq!['"']
            || has_part(lower, "voice-inputter"@)),
        0 <= n < buf.len() && buf[n] == 0 && (forall|k: int| 0 <= k < n ==> buf[k] != 0)
            ==> registry_text(buf) == decoded(buf.take(n)),
        (forall|k: int| 0 <= k < buf.len() ==> buf[k] != 0) ==> registry_text(buf) == Seq::<
            char,
        >::empty(),
{
    reveal_strlit("\"");
    assert("\""@ =~= seq!['"']);
    buf.index_of_first_ensures(0);
    if 0 <= n < buf.len() && buf[n] == 0 && (forall|k: int| 0 <= k < n ==> buf[k] != 0) {
        assert(buf.contains(0));
        let i = buf.index_of_first(0)->0;
        assert(i == n) by {
            if i < n {
                assert(buf[i] != 0);
            }
        }
    }
    if forall|k: int| 0 <= k < buf.len() ==> buf[k] != 0 {
        assert(!buf.contains(0));
        assert(buf.take(0) =~= Seq::<u16>::empty());
        assert(decoded(Seq::<u16>::empty()) =~= Seq::<char>::empty());
    }
}

// ── code units and short texts ────────────────────────────────────────────
/// A character of the basic plane is its own code unit; every other is a pair of
/// surrogates, ten bits of it in each.
pub proof fn law_code_units(c: char)
    ensures
        c as u32 <= 0xFFFF ==> encoded(seq![c]) == seq![c as u16],
        c as u32 > 0xFFFF ==> encoded(seq![c]).len() == 2 && 0xD800 <= encoded(seq![c])[0] <= 0xDBFF
            && 0xDC00 <= encoded(seq![c])[1] <= 0xDFFF && (encoded(seq![c])[0] - 0xD800) * 0x400 + (
        encoded(seq![c])[1] - 0xDC00) + 0x10000 == c as u32,
{
    assert(seq![c].skip(1) =~= Seq::<char>::empty());
    assert(encoded(Seq::<char>::empty()) =~= Seq::<u16>::empty());
    assert(encoded(seq![c]) =~= units(c));
}

/// A text that fits stays as it is; of any other with at least two units the longest
/// beginning that fits with dots behind it is kept, and at least one unit.
pub proof fn law_short_texts(t: Seq<u16>, whole: bool, fit: Seq<bool>)
    requires
        t.len() >= 2,
    ensures
        whole ==> ellipsized(t, whole, fit) == t,
        !whole ==> ({
            let r = ellipsized(t, whole, fit);
            let n = r.len() - 1;
            &&& 1 <= n < t.len()
            &&& r.last() == 0x2026
            &&& r.drop_last() == t.take(n)
            &&& n > 1 ==> fit[n]
            &&& forall|k: int| n < k < t.len() ==> !fit[k]
        }),
{
    law_longest_fit(fit, t.len() as int);
    let n = longest_fit(fit, t.len() as int);
    assert(t.take(n).push(0x2026u16).drop_last() =~= t.take(n));
}

/// A code unit that is half of a pair without the other half is read as the replacement
/// character, two halves as their character, and any other unit as its own.
pub proof fn law_units_are_read(u: u16, rest: Seq<u16>)
    ensures
        ({
            let s = seq![u] + rest;
            let pair = 0xD800 <= u <= 0xDBFF && rest.len() > 0 && 0xDC00 <= rest[0] <= 0xDFFF;
            &&& !(0xD800 <= u <= 0xDFFF) ==> decoded(s) == seq![u as char] + decoded(rest)
            &&& 0xD800 <= u <= 0xDFFF && !pair ==> decoded(s) == seq!['\u{FFFD}'] + decoded(rest)
            &&& pair ==> decoded(s) == seq![
                (0x10000 + (u - 0xD800) * 0x400 + (rest[0] - 0xDC00)) as char,
            ] + decoded(rest.skip(1))
        }),
{
    let s = seq![u] + rest;
    assert(s[0] == u);
    assert(s.skip(1) =~= rest);
    if rest.len() > 0 {
        assert(s[1] == rest[0]);
        assert(s.skip(2) =~= rest.skip(1));
    }
}

/// From 2^52 on, the nearest number of double precision is a whole number of steps, of which
/// 2^52 to 2^53 make the number, and off by half a step at most.
pub proof fn law_double_precision(v: int) -> (step: int)
    requires
        v >= 0x10_0000_0000_0000,
    ensures
        step * 0x10_0000_0000_0000 <= v < step * 0x20_0000_0000_0000,
        nearest_double(v) % step == 0,
        -step <= 2 * (nearest_double(v) - v) <= step,
{
    let step = spacing(v);
    lemma_spacing(v);
    law_rounded_to_the_nearest(v, step, 0);
    let n = rounded(v, step);
    lemma_fundamental_div_mod_converse(n * step, step, n, 0);
    step
}

proof fn lemma_spacing(v: int)
    requires
        v >= 0x10_0000_0000_0000,
    ensures
        0 < spacing(v),
        spacing(v) * 0x10_0000_0000_0000 <= v < spacing(v) * 0x20_0000_0000_0000,
    decreases v,
{
    if v >= 0x20_0000_0000_0000 {
        lemma_spacing(v / 2);
    }
}

} // verus!
