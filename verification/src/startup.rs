//! Starting with the system: the command in the registry and whether it is ours.

use crate::text::{chars_of, contains, has_part, lowercase, same, to_lowercase};
use crate::utf16::{decode_range, decoded, encoded, law_decode_of_encode, units, wide};
use vstd::prelude::*;

verus! {

/// The path of the program in quotation marks.
pub open spec fn quoted(exe: Seq<char>) -> Seq<char> {
    "\""@ + exe + "\""@
}

fn quote(exe: &str) -> (r: String)
    ensures
        r@ == quoted(exe@),
{
    let mut r = "\"".to_owned();
    r.append(exe);
    r.append("\"");
    r
}

/// The command that starts the program, as the registry holds it: its path in
/// quotation marks, since paths have spaces, with a zero behind it.
pub fn command(exe: &str) -> (r: Vec<u16>)
    ensures
        r@ == encoded(quoted(exe@)).push(0),
{
    let q = quote(exe);
    wide(&q)
}

/// How many code units stand before the first zero; none if there is no zero.
pub open spec fn len_to_zero(buf: Seq<u16>) -> int {
    if buf.contains(0) {
        buf.index_of_first(0)->0
    } else {
        0
    }
}

/// The text before the first zero.
pub open spec fn registry_text(buf: Seq<u16>) -> Seq<char> {
    decoded(buf.take(len_to_zero(buf)))
}

/// The registered command starts this program, or a copy of it elsewhere.
/// `lower` is the command in lower case.
pub open spec fn is_ours(cur: Seq<char>, lower: Seq<char>, exe: Seq<char>) -> bool {
    cur.len() > 0 && (cur == quoted(exe) || has_part(lower, "voice-inputter"@))
}

/// Is the registered command, with its lower-case form, that of this program.
pub fn ours(cur: &str, lower: &str, exe: &str) -> (r: bool)
    ensures
        r == is_ours(cur@, lower@, exe@),
{
    let want = quote(exe);
    chars_of(cur).len() > 0 && (same(cur, &want) || contains(lower, "voice-inputter"))
}

/// Does the program start with the system, given what the registry holds. The
/// folder may have been moved: any command with the program's name counts, and
/// saving the settings corrects it.
pub fn enabled(buf: &Vec<u16>, exe: &str) -> (r: bool)
    ensures
        r == is_ours(registry_text(buf@), lowercase(registry_text(buf@)), exe@),
{
    let mut n: usize = 0;
    while n < buf.len() && buf[n] != 0
        invariant
            n <= buf@.len(),
            forall|k: int| 0 <= k < n ==> buf@[k] != 0,
        decreases buf@.len() - n,
    {
        n += 1;
    }
    proof {
        lemma_first_zero(buf@, n as int);
    }
    if n == buf.len() {
        n = 0;
    }
    let cur = decode_range(buf, 0, n);
    assert(buf@.subrange(0, n as int) =~= buf@.take(n as int));
    let lower = to_lowercase(&cur);
    ours(&cur, &lower, exe)
}

proof fn lemma_first_zero(buf: Seq<u16>, n: int)
    requires
        0 <= n <= buf.len(),
        forall|k: int| 0 <= k < n ==> buf[k] != 0,
        n < buf.len() ==> buf[n] == 0,
    ensures
        n < buf.len() ==> len_to_zero(buf) == n,
        n == buf.len() ==> len_to_zero(buf) == 0,
{
    buf.index_of_first_ensures(0);
}

proof fn lemma_no_zero_units(s: Seq<char>)
    requires
        forall|i: int| 0 <= i < s.len() ==> #[trigger] s[i] != '\0',
    ensures
        forall|i: int| 0 <= i < encoded(s).len() ==> #[trigger] encoded(s)[i] != 0,
    decreases s.len(),
{
    if s.len() > 0 {
        assert(s[0] != '\0');
        lemma_no_zero_units(s.skip(1));
        lemma_char_units(s[0]);
        assert forall|i: int| 0 <= i < encoded(s).len() implies #[trigger] encoded(s)[i] != 0 by {
            let n = units(s[0]).len();
            if i < n {
                assert(encoded(s)[i] == units(s[0])[i]);
            } else {
                assert(encoded(s)[i] == encoded(s.skip(1))[i - n]);
            }
        }
    }
}

proof fn lemma_char_units(c: char)
    requires
        c != '\0',
    ensures
        forall|i: int| 0 <= i < units(c).len() ==> #[trigger] units(c)[i] != 0,
{
}

/// Once the command was written, the program is found to start with the system,
/// whatever else the buffer holds behind it.
pub proof fn law_enabled_after_set(exe: Seq<char>, lower: Seq<char>, behind: Seq<u16>)
    requires
        forall|i: int| 0 <= i < exe.len() ==> #[trigger] exe[i] != '\0',
    ensures
        is_ours(registry_text(encoded(quoted(exe)).push(0) + behind), lower, exe),
{
    reveal_strlit("\"");
    let q = quoted(exe);
    let e = encoded(q);
    let buf = e.push(0) + behind;
    assert forall|i: int| 0 <= i < q.len() implies #[trigger] q[i] != '\0' by {
        if 1 <= i < q.len() - 1 {
            assert(q[i] == exe[i - 1]);
        }
    }
    lemma_no_zero_units(q);
    assert forall|k: int| 0 <= k < e.len() implies buf[k] != 0 by {
        assert(buf[k] == e[k]);
    }
    lemma_first_zero(buf, e.len() as int);
    assert(buf.take(e.len() as int) =~= e);
    law_decode_of_encode(q);
}

} // verus!
