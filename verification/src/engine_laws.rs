//! What the dictation machine does about each event: when dictation and listening are
//! on, what stands on the screen, and what the recogniser and the windows are told.

use crate::config::Config;
use crate::engine::{
    dictated, finalized, hearing, lemma_finalized, lemma_keyless,
    lemma_screen_concat, lemma_screen_dictated, no_keys, reconciled, screen_after, starting, step,
    stop, stopping, Act, Event, Hearing, Machine, State,
};
use crate::phrase::{
    common_len, control_words, first_word, has_word, lemma_common_len, lower_texts, shaped,
};
use crate::strip_laws::law_first_word;
use crate::text::{lowercase, texts};
use vstd::prelude::*;

verus! {

// ── dictation and listening ───────────────────────────────────────────────
/// Dictation is on after an event exactly in these cases. Turning listening on, a new
/// sound and a new recogniser leave it; turning listening off and a change of the
/// recogniser's settings end it; a toggle turns it over; too long a silence ends it
/// while listening is on. Sound starts it with a wake word and ends it where a
/// finished phrase has a stop word, and does nothing while listening is off.
pub proof fn law_when_dictation_is_on(m: Machine, ev: Event, append_space: bool)
    ensures
        ({
            let was = m.state == State::Dictating;
            let on_now = step(m, ev, append_space).0.state == State::Dictating;
            match ev {
                Event::SetEnabled(on) => on_now == (was && on),
                Event::Reset => on_now == was,
                Event::Reload => !on_now,
                Event::Rebuilt(_) => on_now == was,
                Event::Toggle => on_now == !was,
                Event::Silence(too_long) => on_now == (was && !(m.enabled && too_long)),
                Event::Heard(h) => if !m.enabled {
                    on_now == was
                } else if was {
                    on_now == !(h.endpoint && h.stopped)
                } else {
                    on_now == (h.speech && h.woken)
                },
            }
        }),
{
}

/// Listening is turned on and off by hand only.
pub proof fn law_when_listening_is_on(m: Machine, ev: Event, append_space: bool)
    ensures
        step(m, ev, append_space).0.enabled == (match ev {
            Event::SetEnabled(on) => on,
            _ => m.enabled,
        }),
{
}

/// The phrase on the way is over with whatever starts or ends dictation, with the end
/// of a phrase that is heard, and with new sound, a new recogniser and listening turned
/// on or off. Else it is what was heard last if words are typed live, and stays as it
/// was if not.
pub proof fn law_phrase_on_the_way(m: Machine, ev: Event, append_space: bool)
    ensures
        ({
            let next = step(m, ev, append_space).0;
            &&& next.state != m.state ==> next.emitted.len() == 0
            &&& next.state == m.state ==> match ev {
                Event::SetEnabled(_) | Event::Reset => next.emitted.len() == 0,
                Event::Rebuilt(ok) => if ok {
                    next.emitted.len() == 0
                } else {
                    next.emitted == m.emitted
                },
                Event::Reload | Event::Toggle | Event::Silence(_) => next.emitted == m.emitted,
                Event::Heard(h) => if !m.enabled || m.state == State::Idle {
                    next.emitted == m.emitted
                } else if h.endpoint {
                    next.emitted.len() == 0
                } else if h.live_typing {
                    next.emitted == h.target
                } else {
                    next.emitted == m.emitted
                },
            }
        }),
{
}

// ── parts of lists of actions ─────────────────────────────────────────────
proof fn lemma_contains(a: Seq<Act>, b: Seq<Act>, x: Act)
    ensures
        (a + b).contains(x) <==> a.contains(x) || b.contains(x),
{
    let c = a + b;
    if a.contains(x) {
        let i = choose|i: int| 0 <= i < a.len() && a[i] == x;
        assert(c[i] == x);
    }
    if b.contains(x) {
        let i = choose|i: int| 0 <= i < b.len() && b[i] == x;
        assert(c[a.len() + i] == x);
    }
    if c.contains(x) {
        let i = choose|i: int| 0 <= i < c.len() && c[i] == x;
        if i < a.len() {
            assert(a[i] == x);
        } else {
            assert(b[i - a.len()] == x);
        }
    }
}

/// A key is pressed.
pub open spec fn is_key(a: Act) -> bool {
    a is Backspace || a is Type
}

spec fn keys_only(list: Seq<Act>) -> bool {
    forall|i: int| 0 <= i < list.len() ==> is_key(#[trigger] list[i])
}

proof fn lemma_keys_only(m: Machine, h: Hearing, append_space: bool)
    ensures
        keys_only(reconciled(m.emitted, h.target)),
        keys_only(finalized(m.emitted, append_space)),
        keys_only(finalized(h.target, append_space)),
{
}

proof fn lemma_no_such(list: Seq<Act>, x: Act)
    requires
        keys_only(list),
        !is_key(x),
    ensures
        !list.contains(x),
{
    if list.contains(x) {
        let i = choose|i: int| 0 <= i < list.len() && list[i] == x;
        assert(is_key(list[i]));
    }
}

spec fn noted(h: Hearing) -> Seq<Act> {
    if h.speech {
        seq![Act::NoteSpeech]
    } else {
        Seq::empty()
    }
}

/// What of the actions of a heard phrase is keys.
spec fn keys_of(m: Machine, h: Hearing) -> Seq<Act> {
    if h.live_typing || h.endpoint {
        reconciled(m.emitted, h.target)
    } else {
        Seq::empty()
    }
}

/// What comes behind the keys.
spec fn rest_of(h: Hearing, append_space: bool) -> Seq<Act> {
    if !h.endpoint {
        Seq::empty()
    } else if h.stopped {
        seq![Act::ResetRecognizer, Act::StoreDictating(false), Act::PostState]
    } else {
        seq![Act::ResetRecognizer]
    }
}

spec fn space_of(h: Hearing, append_space: bool) -> Seq<Act> {
    if h.endpoint {
        finalized(h.target, append_space)
    } else {
        Seq::empty()
    }
}

proof fn lemma_dictated(m: Machine, h: Hearing, append_space: bool)
    ensures
        dictated(m, h, append_space).1 == noted(h) + keys_of(m, h) + space_of(h, append_space)
            + rest_of(h, append_space),
        keys_only(keys_of(m, h)),
        keys_only(space_of(h, append_space)),
{
    assert(dictated(m, h, append_space).1 =~= noted(h) + keys_of(m, h) + space_of(h, append_space)
        + rest_of(h, append_space));
    lemma_keys_only(m, h, append_space);
}

proof fn lemma_dictated_contains(m: Machine, h: Hearing, append_space: bool, x: Act)
    requires
        !is_key(x),
    ensures
        dictated(m, h, append_space).1.contains(x) <==> noted(h).contains(x) || rest_of(
            h,
            append_space,
        ).contains(x),
{
    lemma_dictated(m, h, append_space);
    let (a, b, c, d) = (
        noted(h),
        keys_of(m, h),
        space_of(h, append_space),
        rest_of(h, append_space),
    );
    lemma_contains(a + b + c, d, x);
    lemma_contains(a + b, c, x);
    lemma_contains(a, b, x);
    lemma_no_such(b, x);
    lemma_no_such(c, x);
}

proof fn lemma_small(x: Act)
    ensures
        Seq::<Act>::empty().contains(x) == false,
        seq![Act::ResetRecognizer].contains(x) <==> x == Act::ResetRecognizer,
        seq![Act::NoteSpeech].contains(x) <==> x == Act::NoteSpeech,
        seq![Act::Rebuild].contains(x) <==> x == Act::Rebuild,
        seq![Act::ReportFailure].contains(x) <==> x == Act::ReportFailure,
        seq![Act::StoreEnabled(true)].contains(x) <==> x == Act::StoreEnabled(true),
        seq![Act::StoreEnabled(false)].contains(x) <==> x == Act::StoreEnabled(false),
        seq![Act::ResetRecognizer, Act::PostState].contains(x) <==> x == Act::ResetRecognizer || x
            == Act::PostState,
        seq![Act::ResetRecognizer, Act::StoreDictating(true), Act::PostState].contains(x) <==> x
            == Act::ResetRecognizer || x == Act::StoreDictating(true) || x == Act::PostState,
        seq![Act::ResetRecognizer, Act::StoreDictating(false), Act::PostState].contains(x) <==> x
            == Act::ResetRecognizer || x == Act::StoreDictating(false) || x == Act::PostState,
{
    assert(seq![Act::ResetRecognizer][0] == Act::ResetRecognizer);
    assert(seq![Act::NoteSpeech][0] == Act::NoteSpeech);
    assert(seq![Act::Rebuild][0] == Act::Rebuild);
    assert(seq![Act::ReportFailure][0] == Act::ReportFailure);
    let p = seq![Act::ResetRecognizer, Act::PostState];
    assert(p[0] == Act::ResetRecognizer && p[1] == Act::PostState);
    assert(seq![Act::StoreEnabled(true)][0] == Act::StoreEnabled(true));
    assert(seq![Act::StoreEnabled(false)][0] == Act::StoreEnabled(false));
    let q = seq![Act::ResetRecognizer, Act::StoreDictating(true), Act::PostState];
    assert(q[0] == Act::ResetRecognizer && q[1] == Act::StoreDictating(true) && q[2]
        == Act::PostState);
    let r = seq![Act::ResetRecognizer, Act::StoreDictating(false), Act::PostState];
    assert(r[0] == Act::ResetRecognizer && r[1] == Act::StoreDictating(false) && r[2]
        == Act::PostState);
}

proof fn lemma_stop_contains(m: Machine, append_space: bool, x: Act)
    requires
        !is_key(x),
    ensures
        stop(m, append_space).1.contains(x) <==> m.state == State::Dictating && (x
            == Act::ResetRecognizer || x == Act::StoreDictating(false) || x == Act::PostState),
{
    lemma_small(x);
    let fin = finalized(m.emitted, append_space);
    let rest = seq![Act::ResetRecognizer, Act::StoreDictating(false), Act::PostState];
    lemma_contains(fin, rest, x);
    assert(keys_only(fin));
    lemma_no_such(fin, x);
}

/// What is among the actions, keys left aside, for each event.
proof fn lemma_step_contains(m: Machine, ev: Event, append_space: bool, x: Act)
    requires
        !is_key(x),
    ensures
        ({
            let (next, list) = step(m, ev, append_space);
            let began = m.state == State::Idle && next.state == State::Dictating;
            let ended = m.state == State::Dictating && next.state == State::Idle;
            list.contains(x) <==> match x {
                Act::ResetRecognizer => began || ended || ev is SetEnabled || ev is Reset || (
                ev matches Event::Heard(h) && m.enabled && h.endpoint),
                Act::StoreDictating(on) => (on && began) || (!on && ended),
                Act::StoreEnabled(on) => ev == Event::SetEnabled(on),
                Act::PostState => began || ended || ev is SetEnabled,
                Act::NoteSpeech => began || (ev matches Event::Heard(h) && m.enabled && h.speech
                    && m.state == State::Dictating),
                Act::Rebuild => ev is Reload,
                Act::ReportFailure => ev == Event::Rebuilt(false),
                _ => false,
            }
        }),
{
    lemma_small(x);
    lemma_stop_contains(m, append_space, x);
    lemma_contains(starting(), seq![Act::NoteSpeech], x);
    match ev {
        Event::SetEnabled(on) => {
            let mid = if on {
                Seq::<Act>::empty()
            } else {
                stop(m, append_space).1
            };
            let first = seq![Act::StoreEnabled(on)];
            let last = seq![Act::ResetRecognizer, Act::PostState];
            lemma_contains(first + mid, last, x);
            lemma_contains(first, mid, x);
        },
        Event::Reload => {
            lemma_contains(stop(m, append_space).1, seq![Act::Rebuild], x);
        },
        Event::Heard(h) => {
            if m.enabled && m.state == State::Dictating {
                lemma_dictated_contains(m, h, append_space, x);
            }
        },
        _ => {},
    }
}

// ── the recogniser ────────────────────────────────────────────────────────
/// Behind the first reset of the recogniser no key is pressed.
pub open spec fn keys_before_reset(list: Seq<Act>) -> bool {
    forall|i: int, j: int|
        0 <= i < j < list.len() && #[trigger] list[i] == Act::ResetRecognizer ==> !is_key(
            #[trigger] list[j],
        )
}

proof fn lemma_keys_before_reset(a: Seq<Act>, b: Seq<Act>)
    requires
        !a.contains(Act::ResetRecognizer),
        no_keys(b),
    ensures
        keys_before_reset(a + b),
{
    let list = a + b;
    assert forall|i: int, j: int|
        0 <= i < j < list.len() && #[trigger] list[i] == Act::ResetRecognizer implies !is_key(
        #[trigger] list[j],
    ) by {
        if i < a.len() {
            assert(a[i] == Act::ResetRecognizer);
            assert(a.contains(a[i]));
        }
        assert(list[j] == b[j - a.len()]);
    }
}

/// The recogniser forgets the phrase whenever dictation starts or ends, at the end of
/// every phrase that is heard, whether or not it was typed, when listening is turned on
/// or off and when the sound starts anew; and at no other time. All that is typed is
/// typed before.
pub proof fn law_recogniser_starts_anew(m: Machine, ev: Event, append_space: bool)
    ensures
        ({
            let (next, list) = step(m, ev, append_space);
            &&& list.contains(Act::ResetRecognizer) <==> next.state != m.state || ev is SetEnabled
                || ev is Reset || (ev matches Event::Heard(h) && m.enabled && h.endpoint)
            &&& keys_before_reset(list)
        }),
{
    let (next, list) = step(m, ev, append_space);
    let x = Act::ResetRecognizer;
    lemma_step_contains(m, ev, append_space, x);
    lemma_small(x);
    let fin = finalized(m.emitted, append_space);
    assert(keys_only(fin));
    lemma_no_such(fin, x);
    let rest = seq![Act::ResetRecognizer, Act::StoreDictating(false), Act::PostState];
    if m.state == State::Idle || !(list.contains(x)) {
        assert(m.state == State::Idle ==> no_keys(list));
    } else {
        match ev {
            Event::SetEnabled(on) => {
                let first = seq![Act::StoreEnabled(on)];
                let last = seq![Act::ResetRecognizer, Act::PostState];
                lemma_contains(first, fin, x);
                if on {
                    assert(no_keys(list));
                } else {
                    assert(list =~= (first + fin) + (rest + last));
                    lemma_keys_before_reset(first + fin, rest + last);
                }
            },
            Event::Reload => {
                assert(list =~= fin + (rest + seq![Act::Rebuild]));
                lemma_keys_before_reset(fin, rest + seq![Act::Rebuild]);
            },
            Event::Heard(h) => {
                lemma_dictated(m, h, append_space);
                let (a, b, c) = (noted(h), keys_of(m, h), space_of(h, append_space));
                lemma_contains(a + b, c, x);
                lemma_contains(a, b, x);
                lemma_no_such(b, x);
                lemma_no_such(c, x);
                lemma_keys_before_reset(a + b + c, rest_of(h, append_space));
            },
            Event::Toggle | Event::Silence(_) => {
                lemma_keys_before_reset(fin, rest);
            },
            _ => {
                assert(no_keys(list));
            },
        }
    }
}

/// A new recogniser is made exactly when its settings changed, and its failure is told
/// exactly when it failed.
pub proof fn law_recogniser_is_rebuilt(m: Machine, ev: Event, append_space: bool)
    ensures
        step(m, ev, append_space).1.contains(Act::Rebuild) <==> ev is Reload,
        step(m, ev, append_space).1.contains(Act::ReportFailure) <==> ev == Event::Rebuilt(false),
        ev is Reload ==> step(m, ev, append_space).1.last() == Act::Rebuild,
{
    lemma_step_contains(m, ev, append_space, Act::Rebuild);
    lemma_step_contains(m, ev, append_space, Act::ReportFailure);
}

/// The time of the last speech is noted when dictation starts, and while it is on
/// whenever a text is heard.
pub proof fn law_speech_is_noted(m: Machine, ev: Event, append_space: bool)
    ensures
        step(m, ev, append_space).1.contains(Act::NoteSpeech) <==> (m.state == State::Idle && step(
            m,
            ev,
            append_space,
        ).0.state == State::Dictating) || (ev matches Event::Heard(h) && m.enabled && h.speech
            && m.state == State::Dictating),
{
    lemma_step_contains(m, ev, append_space, Act::NoteSpeech);
}

// ── the windows ───────────────────────────────────────────────────────────
/// The windows are told of dictation exactly when it starts or ends, and of listening
/// exactly when it is turned on or off; and they show the new state then and only then,
/// after all that they were told.
pub proof fn law_windows_show_changes(m: Machine, ev: Event, append_space: bool, on: bool)
    ensures
        ({
            let (next, list) = step(m, ev, append_space);
            &&& list.contains(Act::StoreDictating(on)) <==> next.state != m.state && on == (
            next.state == State::Dictating)
            &&& list.contains(Act::StoreEnabled(on)) <==> ev == Event::SetEnabled(on)
            &&& list.contains(Act::PostState) <==> next.state != m.state || ev is SetEnabled
            &&& forall|i: int|
                0 <= i < list.len() && (#[trigger] list[i] is StoreDictating
                    || list[i] is StoreEnabled) ==> list.skip(i).contains(Act::PostState)
        }),
{
    let (next, list) = step(m, ev, append_space);
    lemma_step_contains(m, ev, append_space, Act::StoreDictating(on));
    lemma_step_contains(m, ev, append_space, Act::StoreEnabled(on));
    lemma_step_contains(m, ev, append_space, Act::PostState);
    assert forall|i: int|
        0 <= i < list.len() && (#[trigger] list[i] is StoreDictating
            || list[i] is StoreEnabled) implies list.skip(i).contains(Act::PostState) by {
        lemma_post_follows(m, ev, append_space, i);
    }
}

proof fn lemma_post_follows(m: Machine, ev: Event, append_space: bool, i: int)
    requires
        0 <= i < step(m, ev, append_space).1.len(),
        step(m, ev, append_space).1[i] is StoreDictating || step(
            m,
            ev,
            append_space,
        ).1[i] is StoreEnabled,
    ensures
        step(m, ev, append_space).1.skip(i).contains(Act::PostState),
{
    let (next, list) = step(m, ev, append_space);
    let n = list.len() as int;
    let at = match ev {
        Event::SetEnabled(_) => n - 1,
        Event::Reload => n - 2,
        Event::Toggle => if m.state == State::Idle {
            n - 2
        } else {
            n - 1
        },
        Event::Heard(h) => if m.state == State::Idle {
            n - 2
        } else {
            n - 1
        },
        _ => n - 1,
    };
    match ev {
        Event::Heard(h) => {
            if m.state == State::Dictating {
                lemma_dictated(m, h, append_space);
                let (a, b, c, d) = (
                    noted(h),
                    keys_of(m, h),
                    space_of(h, append_space),
                    rest_of(h, append_space),
                );
                let front = a + b + c;
                if i < front.len() {
                    assert(list[i] == front[i]);
                    if i < a.len() {
                        assert(front[i] == a[i]);
                    } else if i < a.len() + b.len() {
                        assert(front[i] == b[i - a.len()]);
                        assert(is_key(b[i - a.len()]));
                    } else {
                        assert(front[i] == c[i - a.len() - b.len()]);
                        assert(is_key(c[i - a.len() - b.len()]));
                    }
                } else {
                    assert(list[i] == d[i - front.len()]);
                }
            }
        },
        _ => {},
    }
    assert(list[at] == Act::PostState);
    assert(i <= at);
    assert(list.skip(i)[at - i] == Act::PostState);
}

// ── the screen ────────────────────────────────────────────────────────────
/// Whatever event it is but sound, the screen keeps the phrase on the way; where the
/// event ends dictation, a space comes behind the phrase if there is one and the
/// settings ask for it.
pub proof fn law_screen_without_sound(before: Seq<char>, m: Machine, ev: Event, append_space: bool)
    requires
        !(ev is Heard),
    ensures
        ({
            let (next, list) = step(m, ev, append_space);
            screen_after(before + m.emitted, list) == before + m.emitted + (if m.state
                == State::Dictating && next.state == State::Idle && m.emitted.len() > 0
                && append_space {
                seq![' ']
            } else {
                Seq::<char>::empty()
            })
        }),
{
    reveal_strlit(" ");
    assert(" "@ =~= seq![' ']);
    let (next, list) = step(m, ev, append_space);
    let start = before + m.emitted;
    assert(start + Seq::<char>::empty() =~= start);
    lemma_finalized(start, m.emitted, append_space);
    if m.state == State::Idle {
        assert(no_keys(list));
        lemma_keyless(start, list);
    } else {
        match ev {
            Event::SetEnabled(on) => {
                let mid = if on {
                    Seq::<Act>::empty()
                } else {
                    stopping(m.emitted, append_space)
                };
                let first = seq![Act::StoreEnabled(on)];
                let last = seq![Act::ResetRecognizer, Act::PostState];
                lemma_screen_concat(start, first + mid, last);
                lemma_screen_concat(start, first, mid);
                lemma_keyless(start, first);
                lemma_keyless(screen_after(start, mid), last);
            },
            Event::Reload => {
                lemma_screen_concat(start, stopping(m.emitted, append_space), seq![Act::Rebuild]);
                lemma_keyless(
                    screen_after(start, stopping(m.emitted, append_space)),
                    seq![Act::Rebuild],
                );
            },
            Event::Toggle => {},
            Event::Silence(too_long) => {
                if !(m.enabled && too_long) {
                    lemma_keyless(start, list);
                }
            },
            _ => {
                lemma_keyless(start, list);
            },
        }
    }
}

/// Nothing is erased that could stay: Backspace is pressed only for sound while
/// dictation is on, at most once for each piece of it and before anything is typed, and
/// no more often than any beginning that the typed text and the wanted one share leaves
/// over.
pub proof fn law_erases_least(m: Machine, ev: Event, append_space: bool, n: int, i: int, shared: int)
    requires
        0 <= i < step(m, ev, append_space).1.len(),
        step(m, ev, append_space).1[i] == Act::Backspace(n),
        0 <= shared <= m.emitted.len(),
        ev matches Event::Heard(h) ==> shared <= h.target.len() && m.emitted.take(shared)
            == h.target.take(shared),
    ensures
        ev is Heard,
        m.enabled,
        m.state == State::Dictating,
        0 < n <= m.emitted.len() - shared,
        forall|j: int|
            0 <= j < step(m, ev, append_space).1.len() && j != i ==> !(#[trigger] step(
                m,
                ev,
                append_space,
            ).1[j] is Backspace) && (j < i ==> !(step(m, ev, append_space).1[j] is Type)),
{
    let list = step(m, ev, append_space).1;
    assert(list[i] is Backspace);
    if m.state == State::Idle {
        assert(no_keys(list));
    } else {
        match ev {
            Event::Heard(h) => {
                if m.enabled {
                    lemma_common_len(m.emitted, h.target);
                    lemma_dictated(m, h, append_space);
                    let (a, b, c, d) = (
                        noted(h),
                        keys_of(m, h),
                        space_of(h, append_space),
                        rest_of(h, append_space),
                    );
                    let back = a.len() as int;
                    assert forall|j: int| 0 <= j < list.len() && #[trigger] list[j] is Backspace implies j
                        == back && b.len() > 0 && list[j] == b[0] by {
                        if j < a.len() {
                            assert(list[j] == a[j]);
                        } else if j < a.len() + b.len() {
                            assert(list[j] == b[j - a.len()]);
                        } else if j < a.len() + b.len() + c.len() {
                            assert(list[j] == c[j - a.len() - b.len()]);
                        } else {
                            assert(list[j] == d[j - a.len() - b.len() - c.len()]);
                        }
                    }
                    assert forall|j: int| 0 <= j < list.len() && j != i implies !(
                    #[trigger] list[j] is Backspace) && (j < i ==> !(list[j] is Type)) by {
                        if j < i {
                            assert(list[j] == a[j]);
                        }
                    }
                }
            },
            _ => {},
        }
    }
}

/// Where the phrase only grows while it is spoken, nothing is erased and just the new
/// characters are typed.
pub proof fn law_growing_phrase(m: Machine, h: Hearing, append_space: bool, more: Seq<char>, i: int)
    requires
        m.enabled,
        m.state == State::Dictating,
        h.live_typing,
        !h.endpoint,
        h.target == m.emitted + more,
        0 <= i < step(m, Event::Heard(h), append_space).1.len(),
        is_key(step(m, Event::Heard(h), append_space).1[i]),
    ensures
        more.len() > 0,
        step(m, Event::Heard(h), append_space).1[i] == Act::Type(more),
{
    let list = step(m, Event::Heard(h), append_space).1;
    let n = m.emitted.len() as int;
    lemma_common_len(m.emitted, h.target);
    assert(m.emitted.take(n) =~= h.target.take(n));
    assert(common_len(m.emitted, h.target) == n);
    assert(h.target.skip(n) =~= more);
    lemma_dictated(m, h, append_space);
    let (a, b) = (noted(h), keys_of(m, h));
    assert(list =~= a + b);
    if i < a.len() {
        assert(list[i] == a[i]);
    } else {
        assert(list[i] == b[i - a.len()]);
    }
}

// ── what is said ──────────────────────────────────────────────────────────
proof fn lemma_any_word(text: Seq<char>, list: Seq<Seq<char>>, fuzzy: bool)
    ensures
        first_word(lowercase(text), lower_texts(list), fuzzy) is Some <==> exists|i: int|
            0 <= i < list.len() && has_word(lowercase(text), lowercase(#[trigger] list[i]), fuzzy),
{
    let low = lower_texts(list);
    law_first_word(lowercase(text), low, fuzzy);
    if first_word(lowercase(text), low, fuzzy) is Some {
        let k = choose|k: int|
            0 <= k < low.len() && has_word(lowercase(text), #[trigger] low[k], fuzzy);
        assert(low[k] == lowercase(list[k]));
    }
    if exists|i: int|
        0 <= i < list.len() && has_word(lowercase(text), lowercase(#[trigger] list[i]), fuzzy) {
        let i = choose|i: int|
            0 <= i < list.len() && has_word(lowercase(text), lowercase(#[trigger] list[i]), fuzzy);
        assert(low[i] == lowercase(list[i]));
    }
}

/// A finished phrase ends dictation exactly if it has any of the stop words, to the
/// letter; a phrase that is not over never ends it.
pub proof fn law_any_stop_word_ends(m: Machine, cfg: Config, text: Seq<char>)
    requires
        m.enabled,
        m.state == State::Dictating,
    ensures
        step(m, Event::Heard(hearing(cfg, text, true)), cfg.append_space).0.state == State::Idle
            <==> exists|i: int|
            0 <= i < cfg.stop_words@.len() && has_word(
                lowercase(text),
                lowercase((#[trigger] cfg.stop_words@[i])@),
                false,
            ),
        step(m, Event::Heard(hearing(cfg, text, false)), cfg.append_space).0.state
            == State::Dictating,
{
    let list = texts(cfg.stop_words@);
    lemma_any_word(text, list, false);
    lemma_listed(cfg.stop_words@, lowercase(text), false);
}

/// A text starts dictation exactly if it has any of the wake words, or nearly has,
/// whether or not the phrase is over.
pub proof fn law_any_wake_word_starts(m: Machine, cfg: Config, text: Seq<char>, endpoint: bool)
    requires
        m.enabled,
        m.state == State::Idle,
    ensures
        step(m, Event::Heard(hearing(cfg, text, endpoint)), cfg.append_space).0.state
            == State::Dictating <==> text.len() > 0 && exists|i: int|
            0 <= i < cfg.wake_words@.len() && has_word(
                lowercase(text),
                lowercase((#[trigger] cfg.wake_words@[i])@),
                true,
            ),
{
    let list = texts(cfg.wake_words@);
    lemma_any_word(text, list, true);
    lemma_listed(cfg.wake_words@, lowercase(text), true);
}

proof fn lemma_listed(v: Seq<String>, lower: Seq<char>, fuzzy: bool)
    ensures
        (exists|i: int|
            0 <= i < texts(v).len() && has_word(lower, lowercase(#[trigger] texts(v)[i]), fuzzy))
            <==> (exists|i: int|
            0 <= i < v.len() && has_word(lower, lowercase((#[trigger] v[i])@), fuzzy)),
{
    if exists|i: int|
        0 <= i < texts(v).len() && has_word(lower, lowercase(#[trigger] texts(v)[i]), fuzzy) {
        let i = choose|i: int|
            0 <= i < texts(v).len() && has_word(lower, lowercase(#[trigger] texts(v)[i]), fuzzy);
        assert(texts(v)[i] == v[i]@);
        assert(has_word(lower, lowercase(v[i]@), fuzzy));
    }
    if exists|i: int| 0 <= i < v.len() && has_word(lower, lowercase((#[trigger] v[i])@), fuzzy) {
        let i = choose|i: int|
            0 <= i < v.len() && has_word(lower, lowercase((#[trigger] v[i])@), fuzzy);
        assert(texts(v)[i] == v[i]@);
    }
}

/// While dictation is on, what is heard stands on the screen in the form in which it is
/// typed: with each piece of sound if the settings ask for live typing, and in any case
/// when the phrase is over, then with a space behind it if the settings ask for that
/// and there is any text. Without live typing the screen stays as it was until then.
pub proof fn law_what_is_heard_is_typed(
    before: Seq<char>,
    m: Machine,
    cfg: Config,
    text: Seq<char>,
    endpoint: bool,
)
    requires
        m.enabled,
        m.state == State::Dictating,
    ensures
        ({
            let said = shaped(lowercase(text), lower_texts(control_words(cfg)), cfg.capitalize);
            let list = step(
                m,
                Event::Heard(hearing(cfg, text, endpoint)),
                cfg.append_space,
            ).1;
            let screen = screen_after(before + m.emitted, list);
            &&& !endpoint && !cfg.live_typing ==> screen == before + m.emitted
            &&& !endpoint && cfg.live_typing ==> screen == before + said
            &&& endpoint && (said.len() == 0 || !cfg.append_space) ==> screen == before + said
            &&& endpoint && said.len() > 0 && cfg.append_space ==> screen == before + said + seq![
                ' ',
            ]
            &&& list.contains(Act::NoteSpeech) <==> text.len() > 0
        }),
{
    let h = hearing(cfg, text, endpoint);
    reveal_strlit(" ");
    assert(" "@ =~= seq![' ']);
    lemma_screen_dictated(before, m, h, cfg.append_space);
    assert(before + h.target + Seq::<char>::empty() =~= before + h.target);
    assert(before + m.emitted + Seq::<char>::empty() =~= before + m.emitted);
    lemma_step_contains(m, Event::Heard(h), cfg.append_space, Act::NoteSpeech);
}

} // verus!
