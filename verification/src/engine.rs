//! The dictation machine: it waits for a wake word, types what is recognised
//! while dictation lasts, and ends it at a stop word, at a command or after a
//! long silence. Each event yields the actions to carry out, in order.

use crate::config::Config;
use crate::phrase::{
    common_len, concat, contains_word, control_words, diff, first_word, law_diff_reaches_target,
    lemma_common_len, lower_texts, shape, shaped,
};
use crate::text::{chars_of, lowercase, texts};
use vstd::prelude::*;

verus! {

#[derive(Clone, Copy, PartialEq, Eq, Structural, Debug)]
pub enum State {
    /// Waiting for a wake word.
    Idle,
    Dictating,
}

/// One thing to do.
#[derive(PartialEq, Eq, Debug)]
pub enum Action {
    /// Press Backspace so many times.
    Backspace(usize),
    /// Type a text.
    Type(String),
    /// Let the recogniser forget the current phrase.
    ResetRecognizer,
    /// Make a new recogniser from the current settings.
    Rebuild,
    /// Say that no new recogniser could be made.
    ReportFailure,
    /// Tell the windows whether listening is on.
    StoreEnabled(bool),
    /// Tell the windows whether dictation is on.
    StoreDictating(bool),
    /// Let the windows show the new state.
    PostState,
    /// Remember that there was speech just now.
    NoteSpeech,
}

/// One thing to do, with its text as characters.
pub enum Act {
    Backspace(int),
    Type(Seq<char>),
    ResetRecognizer,
    Rebuild,
    ReportFailure,
    StoreEnabled(bool),
    StoreDictating(bool),
    PostState,
    NoteSpeech,
}

impl View for Action {
    type V = Act;

    open spec fn view(&self) -> Act {
        match self {
            Action::Backspace(n) => Act::Backspace(*n as int),
            Action::Type(s) => Act::Type(s@),
            Action::ResetRecognizer => Act::ResetRecognizer,
            Action::Rebuild => Act::Rebuild,
            Action::ReportFailure => Act::ReportFailure,
            Action::StoreEnabled(b) => Act::StoreEnabled(*b),
            Action::StoreDictating(b) => Act::StoreDictating(*b),
            Action::PostState => Act::PostState,
            Action::NoteSpeech => Act::NoteSpeech,
        }
    }
}

pub open spec fn acts(v: Seq<Action>) -> Seq<Act> {
    v.map_values(|a: Action| a@)
}

proof fn lemma_acts_push(v: Seq<Action>, a: Action)
    ensures
        acts(v.push(a)) == acts(v) + seq![a@],
{
    assert(acts(v.push(a)) =~= acts(v) + seq![a@]);
}

fn then_do(list: &mut Vec<Action>, a: Action)
    ensures
        acts(final(list)@) == acts(old(list)@) + seq![a@],
{
    proof {
        lemma_acts_push(list@, a);
    }
    list.push(a);
}

// ── what is typed for the current phrase ──────────────────────────────────
/// What has been typed for the phrase that is not finished yet.
pub struct Live {
    pub emitted: String,
}

/// The keystrokes that turn the typed text into the wanted one.
pub open spec fn reconciled(emitted: Seq<char>, target: Seq<char>) -> Seq<Act> {
    let c = common_len(emitted, target) as int;
    let back = if emitted.len() > c {
        seq![Act::Backspace(emitted.len() - c)]
    } else {
        Seq::<Act>::empty()
    };
    let more = if target.len() > c {
        seq![Act::Type(target.skip(c))]
    } else {
        Seq::<Act>::empty()
    };
    back + more
}

/// What is typed when a phrase ends.
pub open spec fn finalized(emitted: Seq<char>, append_space: bool) -> Seq<Act> {
    if emitted.len() > 0 && append_space {
        seq![Act::Type(" "@)]
    } else {
        Seq::empty()
    }
}

impl Live {
    pub fn new() -> (r: Live)
        ensures
            r.emitted@ == Seq::<char>::empty(),
    {
        Live { emitted: String::new() }
    }

    /// Turns what was typed into `target`: erases what differs and types the
    /// rest.
    pub fn reconcile(&mut self, target: &str) -> (r: Vec<Action>)
        ensures
            acts(r@) == reconciled(old(self).emitted@, target@),
            final(self).emitted@ == target@,
    {
        let mut r: Vec<Action> = Vec::new();
        let (back, suffix) = diff(&self.emitted, target);
        proof {
            lemma_common_len(self.emitted@, target@);
            assert(acts(r@) =~= Seq::<Act>::empty());
        }
        let ghost c = common_len(self.emitted@, target@) as int;
        if back > 0 {
            then_do(&mut r, Action::Backspace(back));
        }
        if chars_of(&suffix).len() > 0 {
            then_do(&mut r, Action::Type(suffix));
        }
        proof {
            assert(acts(r@) =~= reconciled(self.emitted@, target@));
        }
        self.emitted = target.to_owned();
        r
    }

    /// Ends the phrase: a space behind its text, if there is any, and a fresh
    /// start.
    pub fn finalize(&mut self, append_space: bool) -> (r: Vec<Action>)
        ensures
            acts(r@) == finalized(old(self).emitted@, append_space),
            final(self).emitted@ == Seq::<char>::empty(),
    {
        let mut r: Vec<Action> = Vec::new();
        assert(acts(r@) =~= Seq::<Act>::empty());
        if chars_of(&self.emitted).len() > 0 {
            if append_space {
                then_do(&mut r, Action::Type(" ".to_owned()));
            }
            self.emitted = String::new();
        }
        assert(acts(r@) =~= finalized(old(self).emitted@, append_space));
        assert(self.emitted@ =~= Seq::<char>::empty());
        r
    }

    /// Forgets what was typed.
    pub fn reset(&mut self)
        ensures
            final(self).emitted@ == Seq::<char>::empty(),
    {
        self.emitted = String::new();
    }
}

// ── the machine ───────────────────────────────────────────────────────────
pub struct Engine {
    pub state: State,
    pub enabled: bool,
    pub live: Live,
}

/// The machine with the typed text as characters.
pub struct Machine {
    pub state: State,
    pub enabled: bool,
    pub emitted: Seq<char>,
}

impl View for Engine {
    type V = Machine;

    open spec fn view(&self) -> Machine {
        Machine { state: self.state, enabled: self.enabled, emitted: self.live.emitted@ }
    }
}

/// What was made of a piece of sound.
pub struct Hearing {
    /// Some text was recognised.
    pub speech: bool,
    /// It has a wake word.
    pub woken: bool,
    /// It has a stop word.
    pub stopped: bool,
    /// What should stand on the screen for it.
    pub target: Seq<char>,
    /// The phrase is over.
    pub endpoint: bool,
    /// Words are typed before the phrase is over.
    pub live_typing: bool,
}

/// What can happen.
pub enum Event {
    SetEnabled(bool),
    Reset,
    Reload,
    Rebuilt(bool),
    Toggle,
    Heard(Hearing),
    Silence(bool),
}

pub open spec fn stopping(emitted: Seq<char>, append_space: bool) -> Seq<Act> {
    finalized(emitted, append_space) + seq![
        Act::ResetRecognizer,
        Act::StoreDictating(false),
        Act::PostState,
    ]
}

pub open spec fn starting() -> Seq<Act> {
    seq![Act::ResetRecognizer, Act::StoreDictating(true), Act::PostState]
}

/// Dictation ends, if it is on.
pub open spec fn stop(m: Machine, append_space: bool) -> (Machine, Seq<Act>) {
    match m.state {
        State::Idle => (m, Seq::empty()),
        State::Dictating => (
            Machine { state: State::Idle, emitted: Seq::empty(), ..m },
            stopping(m.emitted, append_space),
        ),
    }
}

/// A piece of sound while dictation is on.
pub open spec fn dictated(m: Machine, h: Hearing, append_space: bool) -> (Machine, Seq<Act>) {
    let noted = if h.speech {
        seq![Act::NoteSpeech]
    } else {
        Seq::<Act>::empty()
    };
    let typed = h.live_typing || h.endpoint;
    let keys = if typed {
        reconciled(m.emitted, h.target)
    } else {
        Seq::<Act>::empty()
    };
    let shown = if typed {
        h.target
    } else {
        m.emitted
    };
    if !h.endpoint {
        (Machine { emitted: shown, ..m }, noted + keys)
    } else if h.stopped {
        (
            Machine { state: State::Idle, emitted: Seq::empty(), ..m },
            noted + keys + stopping(shown, append_space),
        )
    } else {
        (
            Machine { emitted: Seq::empty(), ..m },
            noted + keys + finalized(shown, append_space) + seq![Act::ResetRecognizer],
        )
    }
}

/// What the machine becomes and what is to be done, for each event.
pub open spec fn step(m: Machine, ev: Event, append_space: bool) -> (Machine, Seq<Act>) {
    match ev {
        Event::SetEnabled(on) => {
            let (ended, acts) = if on {
                (m, Seq::<Act>::empty())
            } else {
                stop(m, append_space)
            };
            (
                Machine { state: ended.state, enabled: on, emitted: Seq::empty() },
                seq![Act::StoreEnabled(on)] + acts + seq![Act::ResetRecognizer, Act::PostState],
            )
        },
        Event::Reset => (
            Machine { emitted: Seq::empty(), ..m },
            seq![Act::ResetRecognizer],
        ),
        Event::Reload => {
            let (ended, acts) = stop(m, append_space);
            (ended, acts + seq![Act::Rebuild])
        },
        Event::Rebuilt(ok) => if ok {
            (Machine { emitted: Seq::empty(), ..m }, Seq::empty())
        } else {
            (m, seq![Act::ReportFailure])
        },
        Event::Toggle => match m.state {
            State::Dictating => stop(m, append_space),
            State::Idle => (
                Machine { state: State::Dictating, emitted: Seq::empty(), ..m },
                starting() + seq![Act::NoteSpeech],
            ),
        },
        Event::Heard(h) => if !m.enabled {
            (m, Seq::empty())
        } else {
            match m.state {
                State::Idle => if h.speech && h.woken {
                    (
                        Machine { state: State::Dictating, emitted: Seq::empty(), ..m },
                        starting() + seq![Act::NoteSpeech],
                    )
                } else if h.endpoint {
                    (m, seq![Act::ResetRecognizer])
                } else {
                    (m, Seq::empty())
                },
                State::Dictating => dictated(m, h, append_space),
            }
        },
        Event::Silence(too_long) => if m.enabled && too_long {
            stop(m, append_space)
        } else {
            (m, Seq::empty())
        },
    }
}

impl Engine {
    /// A machine that listens and waits.
    pub fn new() -> (r: Engine)
        ensures
            r@ == (Machine { state: State::Idle, enabled: true, emitted: Seq::empty() }),
    {
        let r = Engine { state: State::Idle, enabled: true, live: Live::new() };
        assert(r@.emitted =~= Seq::<char>::empty());
        r
    }

    fn start_dictation(&mut self) -> (r: Vec<Action>)
        requires
            old(self).state == State::Idle,
        ensures
            acts(r@) == starting(),
            final(self)@ == (Machine {
                state: State::Dictating,
                emitted: Seq::empty(),
                ..old(self)@
            }),
    {
        let mut r: Vec<Action> = Vec::new();
        self.live.reset();
        self.state = State::Dictating;
        then_do(&mut r, Action::ResetRecognizer);
        then_do(&mut r, Action::StoreDictating(true));
        then_do(&mut r, Action::PostState);
        assert(acts(r@) =~= starting());
        r
    }

    fn stop_dictation(&mut self, append_space: bool) -> (r: Vec<Action>)
        ensures
            (final(self)@, acts(r@)) == stop(old(self)@, append_space),
    {
        if self.state == State::Idle {
            let r: Vec<Action> = Vec::new();
            assert(acts(r@) =~= Seq::<Act>::empty());
            return r;
        }
        let mut r = self.live.finalize(append_space);
        self.state = State::Idle;
        then_do(&mut r, Action::ResetRecognizer);
        then_do(&mut r, Action::StoreDictating(false));
        then_do(&mut r, Action::PostState);
        assert(acts(r@) =~= stopping(old(self)@.emitted, append_space));
        r
    }

    /// Turns listening on or off. Off ends dictation.
    pub fn set_enabled(&mut self, cfg: &Config, on: bool) -> (r: Vec<Action>)
        ensures
            (final(self)@, acts(r@)) == step(
                old(self)@,
                Event::SetEnabled(on),
                cfg.append_space,
            ),
    {
        let mut r: Vec<Action> = Vec::new();
        self.enabled = on;
        assert(acts(r@) =~= Seq::<Act>::empty());
        then_do(&mut r, Action::StoreEnabled(on));
        if !on {
            let mut more = self.stop_dictation(cfg.append_space);
            let ghost (x, y) = (r@, more@);
            r.append(&mut more);
            assert(acts(r@) =~= acts(x) + acts(y));
        }
        then_do(&mut r, Action::ResetRecognizer);
        self.live.reset();
        then_do(&mut r, Action::PostState);
        assert(acts(r@) =~= step(old(self)@, Event::SetEnabled(on), cfg.append_space).1);
        r
    }

    /// The sound starts anew: another microphone was chosen.
    pub fn reset(&mut self) -> (r: Vec<Action>)
        ensures
            forall|append_space: bool|
                (final(self)@, acts(r@)) == #[trigger] step(
                    old(self)@,
                    Event::Reset,
                    append_space,
                ),
    {
        let mut r: Vec<Action> = Vec::new();
        then_do(&mut r, Action::ResetRecognizer);
        self.live.reset();
        assert(acts(r@) =~= seq![Act::ResetRecognizer]);
        r
    }

    /// The settings of the recogniser changed: dictation ends and a new
    /// recogniser is wanted.
    pub fn reload(&mut self, cfg: &Config) -> (r: Vec<Action>)
        ensures
            (final(self)@, acts(r@)) == step(old(self)@, Event::Reload, cfg.append_space),
    {
        let mut r = self.stop_dictation(cfg.append_space);
        then_do(&mut r, Action::Rebuild);
        r
    }

    /// A new recogniser was made, or could not be.
    pub fn rebuilt(&mut self, ok: bool) -> (r: Vec<Action>)
        ensures
            forall|append_space: bool|
                (final(self)@, acts(r@)) == #[trigger] step(
                    old(self)@,
                    Event::Rebuilt(ok),
                    append_space,
                ),
    {
        let mut r: Vec<Action> = Vec::new();
        assert(acts(r@) =~= Seq::<Act>::empty());
        if ok {
            self.live.reset();
        } else {
            then_do(&mut r, Action::ReportFailure);
            assert(acts(r@) =~= seq![Act::ReportFailure]);
        }
        r
    }

    /// The hotkey or a button: dictation starts or ends.
    pub fn toggle(&mut self, cfg: &Config) -> (r: Vec<Action>)
        ensures
            (final(self)@, acts(r@)) == step(old(self)@, Event::Toggle, cfg.append_space),
    {
        if self.state == State::Dictating {
            self.stop_dictation(cfg.append_space)
        } else {
            let mut r = self.start_dictation();
            then_do(&mut r, Action::NoteSpeech);
            r
        }
    }

    /// Sound was recognised, and `woken`, `stopped` and `target` say what was
    /// made of the text.
    pub fn hear(
        &mut self,
        speech: bool,
        woken: bool,
        stopped: bool,
        target: &str,
        endpoint: bool,
        live_typing: bool,
        append_space: bool,
    ) -> (r: Vec<Action>)
        ensures
            (final(self)@, acts(r@)) == step(
                old(self)@,
                Event::Heard(
                    (Hearing { speech, woken, stopped, target: target@, endpoint, live_typing }),
                ),
                append_space,
            ),
    {
        let ghost h = Hearing { speech, woken, stopped, target: target@, endpoint, live_typing };
        let mut r: Vec<Action> = Vec::new();
        assert(acts(r@) =~= Seq::<Act>::empty());
        if !self.enabled {
            return r;
        }
        if self.state == State::Idle {
            if speech && woken {
                r = self.start_dictation();
                then_do(&mut r, Action::NoteSpeech);
            } else if endpoint {
                then_do(&mut r, Action::ResetRecognizer);
                assert(acts(r@) =~= seq![Act::ResetRecognizer]);
            }
            return r;
        }
        if speech {
            then_do(&mut r, Action::NoteSpeech);
        }
        let ghost noted = acts(r@);
        if live_typing || endpoint {
            let mut more = self.live.reconcile(target);
            let ghost (x, y) = (r@, more@);
            r.append(&mut more);
            assert(acts(r@) =~= acts(x) + acts(y));
        }
        let ghost keys = acts(r@);
        if endpoint {
            if stopped {
                let mut more = self.stop_dictation(append_space);
                let ghost (x, y) = (r@, more@);
                r.append(&mut more);
                assert(acts(r@) =~= acts(x) + acts(y));
            } else {
                let mut more = self.live.finalize(append_space);
                let ghost (x, y) = (r@, more@);
                r.append(&mut more);
                assert(acts(r@) =~= acts(x) + acts(y));
                then_do(&mut r, Action::ResetRecognizer);
            }
        }
        assert(acts(r@) =~= dictated(old(self)@, h, append_space).1);
        r
    }

    /// A piece of sound: `text` is what the recogniser makes of the phrase so
    /// far, `endpoint` says whether the phrase is over.
    pub fn audio(&mut self, cfg: &Config, text: &str, endpoint: bool) -> (r: Vec<Action>)
        ensures
            (final(self)@, acts(r@)) == step(
                old(self)@,
                Event::Heard(hearing(*cfg, text@, endpoint)),
                cfg.append_space,
            ),
    {
        let speech = chars_of(text).len() > 0;
        let woken = contains_word(text, &cfg.wake_words, true).is_some();
        let stopped = contains_word(text, &cfg.stop_words, false).is_some();
        let target = shape(cfg, text);
        self.hear(speech, woken, stopped, &target, endpoint, cfg.live_typing, cfg.append_space)
    }

    /// `too_long` says whether there has been no speech for longer than the
    /// settings allow. Dictation ends then.
    pub fn silence(&mut self, cfg: &Config, too_long: bool) -> (r: Vec<Action>)
        ensures
            (final(self)@, acts(r@)) == step(
                old(self)@,
                Event::Silence(too_long),
                cfg.append_space,
            ),
    {
        if self.enabled && too_long {
            self.stop_dictation(cfg.append_space)
        } else {
            let r: Vec<Action> = Vec::new();
            assert(acts(r@) =~= Seq::<Act>::empty());
            r
        }
    }
}

/// What is made of a recognised text under the settings.
pub open spec fn hearing(cfg: Config, text: Seq<char>, endpoint: bool) -> Hearing {
    Hearing {
        speech: text.len() > 0,
        woken: first_word(
            lowercase(text),
            lower_texts(texts(cfg.wake_words@)),
            true,
        ) is Some,
        stopped: first_word(
            lowercase(text),
            lower_texts(texts(cfg.stop_words@)),
            false,
        ) is Some,
        target: shaped(lowercase(text), lower_texts(control_words(cfg)), cfg.capitalize),
        endpoint,
        live_typing: cfg.live_typing,
    }
}

/// The words that the recogniser should listen for: the wake words and then the
/// stop words.
pub fn hot_words(cfg: &Config) -> (r: Vec<String>)
    ensures
        texts(r@) == texts(cfg.wake_words@) + texts(cfg.stop_words@),
{
    concat(&cfg.wake_words, &cfg.stop_words)
}

// ── what holds of every run ───────────────────────────────────────────────
/// While the machine waits, no phrase is on the way.
pub open spec fn quiet(m: Machine) -> bool {
    m.state == State::Idle ==> m.emitted == Seq::<char>::empty()
}

/// A screen after the keystrokes among the actions.
pub open spec fn screen_after(screen: Seq<char>, list: Seq<Act>) -> Seq<char>
    decreases list.len(),
{
    if list.len() == 0 {
        screen
    } else {
        let before = screen_after(screen, list.drop_last());
        match list.last() {
            Act::Backspace(n) => before.take(before.len() - n),
            Act::Type(s) => before + s,
            _ => before,
        }
    }
}

/// What was last stored about dictation.
pub open spec fn told_dictating(was: bool, list: Seq<Act>) -> bool
    decreases list.len(),
{
    if list.len() == 0 {
        was
    } else {
        match list.last() {
            Act::StoreDictating(b) => b,
            _ => told_dictating(was, list.drop_last()),
        }
    }
}

/// What was last stored about listening.
pub open spec fn told_enabled(was: bool, list: Seq<Act>) -> bool
    decreases list.len(),
{
    if list.len() == 0 {
        was
    } else {
        match list.last() {
            Act::StoreEnabled(b) => b,
            _ => told_enabled(was, list.drop_last()),
        }
    }
}

/// No keystroke is among the actions.
pub open spec fn no_keys(list: Seq<Act>) -> bool {
    forall|k: int|
        0 <= k < list.len() ==> !(#[trigger] list[k] is Backspace) && !(list[k] is Type)
}

pub proof fn lemma_screen_concat(screen: Seq<char>, a: Seq<Act>, b: Seq<Act>)
    ensures
        screen_after(screen, a + b) == screen_after(screen_after(screen, a), b),
    decreases b.len(),
{
    if b.len() == 0 {
        assert(a + b =~= a);
    } else {
        assert((a + b).drop_last() =~= a + b.drop_last());
        lemma_screen_concat(screen, a, b.drop_last());
    }
}

proof fn lemma_told_concat(d: bool, e: bool, a: Seq<Act>, b: Seq<Act>)
    ensures
        told_dictating(d, a + b) == told_dictating(told_dictating(d, a), b),
        told_enabled(e, a + b) == told_enabled(told_enabled(e, a), b),
    decreases b.len(),
{
    if b.len() == 0 {
        assert(a + b =~= a);
    } else {
        assert((a + b).drop_last() =~= a + b.drop_last());
        lemma_told_concat(d, e, a, b.drop_last());
    }
}

proof fn lemma_one(screen: Seq<char>, d: bool, e: bool, a: Act)
    ensures
        screen_after(screen, seq![a]) == (match a {
            Act::Backspace(n) => screen.take(screen.len() - n),
            Act::Type(s) => screen + s,
            _ => screen,
        }),
        told_dictating(d, seq![a]) == (match a {
            Act::StoreDictating(b) => b,
            _ => d,
        }),
        told_enabled(e, seq![a]) == (match a {
            Act::StoreEnabled(b) => b,
            _ => e,
        }),
{
    let one = seq![a];
    assert(one.drop_last() =~= Seq::<Act>::empty());
    assert(one.last() == a);
    assert(screen_after(screen, one.drop_last()) == screen);
    assert(told_dictating(d, one.drop_last()) == d);
    assert(told_enabled(e, one.drop_last()) == e);
}

pub proof fn lemma_keyless(screen: Seq<char>, list: Seq<Act>)
    requires
        no_keys(list),
    ensures
        screen_after(screen, list) == screen,
    decreases list.len(),
{
    if list.len() > 0 {
        assert(no_keys(list.drop_last())) by {
            assert forall|k: int| 0 <= k < list.drop_last().len() implies !(
            #[trigger] list.drop_last()[k] is Backspace) && !(list.drop_last()[k] is Type) by {
                assert(list[k] == list.drop_last()[k]);
            }
        }
        lemma_keyless(screen, list.drop_last());
        assert(!(list[list.len() - 1] is Backspace));
    }
}

/// The keystrokes for a new target leave it in place of what was typed, and
/// leave alone what stood before.
pub proof fn law_reconcile(before: Seq<char>, emitted: Seq<char>, target: Seq<char>)
    ensures
        screen_after(before + emitted, reconciled(emitted, target)) == before + target,
{
    let c = common_len(emitted, target) as int;
    lemma_common_len(emitted, target);
    law_diff_reaches_target(before, emitted, target);
    let screen = before + emitted;
    let back = if emitted.len() > c {
        seq![Act::Backspace(emitted.len() - c)]
    } else {
        Seq::<Act>::empty()
    };
    let more = if target.len() > c {
        seq![Act::Type(target.skip(c))]
    } else {
        Seq::<Act>::empty()
    };
    lemma_screen_concat(screen, back, more);
    lemma_one(screen, false, false, Act::Backspace(emitted.len() - c));
    let mid = screen.take(screen.len() - (emitted.len() - c));
    assert(screen_after(screen, back) =~= mid) by {
        if emitted.len() == c {
            assert(mid =~= screen);
        }
    }
    lemma_one(mid, false, false, Act::Type(target.skip(c)));
    if target.len() == c {
        assert(mid + target.skip(c) =~= mid);
    }
}

pub proof fn lemma_finalized(screen: Seq<char>, emitted: Seq<char>, append_space: bool)
    ensures
        screen_after(screen, finalized(emitted, append_space)) == screen + (if emitted.len() > 0
            && append_space {
            " "@
        } else {
            Seq::empty()
        }),
        screen_after(screen, stopping(emitted, append_space)) == screen_after(
            screen,
            finalized(emitted, append_space),
        ),
{
    lemma_one(screen, false, false, Act::Type(" "@));
    assert(screen + Seq::<char>::empty() =~= screen);
    let rest = seq![Act::ResetRecognizer, Act::StoreDictating(false), Act::PostState];
    lemma_screen_concat(screen, finalized(emitted, append_space), rest);
    lemma_keyless(screen_after(screen, finalized(emitted, append_space)), rest);
}

/// A machine that is made keeps no phrase while it waits, and no event changes
/// that.
pub proof fn law_quiet(m: Machine, ev: Event, append_space: bool)
    requires
        quiet(m),
    ensures
        quiet(step(m, ev, append_space).0),
{
}

/// While the machine waits, no event makes it type or erase anything.
pub proof fn law_idle_types_nothing(m: Machine, ev: Event, append_space: bool)
    requires
        m.state == State::Idle,
    ensures
        no_keys(step(m, ev, append_space).1),
{
}

/// While listening is off, sound changes nothing and nothing is done about it.
pub proof fn law_disabled_hears_nothing(m: Machine, h: Hearing, append_space: bool)
    requires
        !m.enabled,
    ensures
        step(m, Event::Heard(h), append_space) == (m, Seq::<Act>::empty()),
{
}

/// Where the screen ends with the current phrase, it still does after any
/// event, and everything that stood before the phrase is still there: the
/// machine erases only what it typed itself.
#[verifier::rlimit(40)]
pub proof fn law_screen(before: Seq<char>, m: Machine, ev: Event, append_space: bool)
    requires
        quiet(m),
    ensures
        ({
            let (next, list) = step(m, ev, append_space);
            let screen = screen_after(before + m.emitted, list);
            &&& before.len() + next.emitted.len() <= screen.len()
            &&& screen.take(before.len() as int) == before
            &&& screen.skip(screen.len() - next.emitted.len()) == next.emitted
        }),
{
    let (next, list) = step(m, ev, append_space);
    let start = before + m.emitted;
    let screen = screen_after(start, list);
    if m.state == State::Idle {
        law_idle_types_nothing(m, ev, append_space);
        lemma_keyless(start, list);
        assert(start =~= before);
    } else {
        lemma_finalized(start, m.emitted, append_space);
        match ev {
            Event::SetEnabled(on) => {
                let mid = if on {
                    Seq::<Act>::empty()
                } else {
                    stopping(m.emitted, append_space)
                };
                let first = seq![Act::StoreEnabled(on)];
                let last = seq![Act::ResetRecognizer, Act::PostState];
                lemma_screen_concat(start, first + mid, last);
                lemma_screen_concat(start, first, mid);
                lemma_keyless(start, first);
                lemma_keyless(screen_after(start, mid), last);
            },
            Event::Reset => {
                lemma_keyless(start, list);
            },
            Event::Reload => {
                lemma_screen_concat(start, stopping(m.emitted, append_space), seq![Act::Rebuild]);
                lemma_keyless(
                    screen_after(start, stopping(m.emitted, append_space)),
                    seq![Act::Rebuild],
                );
            },
            Event::Rebuilt(ok) => {
                lemma_keyless(start, list);
            },
            Event::Toggle => {},
            Event::Heard(h) => {
                if !m.enabled {
                    lemma_keyless(start, list);
                } else {
                    lemma_screen_dictated(before, m, h, append_space);
                }
            },
            Event::Silence(too_long) => {
                if !(m.enabled && too_long) {
                    lemma_keyless(start, list);
                }
            },
        }
    }
    assert(screen.take(before.len() as int) =~= before);
    assert(screen.skip(screen.len() - next.emitted.len()) =~= next.emitted);
}

pub proof fn lemma_screen_dictated(before: Seq<char>, m: Machine, h: Hearing, append_space: bool)
    ensures
        ({
            let (next, list) = dictated(m, h, append_space);
            let shown = if h.live_typing || h.endpoint {
                h.target
            } else {
                m.emitted
            };
            let space = if h.endpoint && append_space && shown.len() > 0 {
                " "@
            } else {
                Seq::<char>::empty()
            };
            screen_after(before + m.emitted, list) == before + shown + space
        }),
{
    let start = before + m.emitted;
    let noted = if h.speech {
        seq![Act::NoteSpeech]
    } else {
        Seq::<Act>::empty()
    };
    let typed = h.live_typing || h.endpoint;
    let keys = if typed {
        reconciled(m.emitted, h.target)
    } else {
        Seq::<Act>::empty()
    };
    let shown = if typed {
        h.target
    } else {
        m.emitted
    };
    lemma_screen_concat(start, noted, keys);
    lemma_keyless(start, noted);
    law_reconcile(before, m.emitted, h.target);
    let mid = before + shown;
    assert(screen_after(start, noted + keys) =~= mid);
    lemma_finalized(mid, shown, append_space);
    assert(mid + Seq::<char>::empty() =~= mid);
    if h.endpoint {
        if h.stopped {
            lemma_screen_concat(start, noted + keys, stopping(shown, append_space));
        } else {
            let fin = finalized(shown, append_space);
            lemma_screen_concat(start, noted + keys, fin);
            lemma_screen_concat(start, noted + keys + fin, seq![Act::ResetRecognizer]);
            lemma_keyless(screen_after(mid, fin), seq![Act::ResetRecognizer]);
        }
    }
}

/// After a finished phrase the screen has the phrase and, where the settings ask
/// for it and there is any text, a space behind it; and before the phrase is
/// over it has the phrase so far if words are typed live, else what it had.
pub proof fn law_phrase_on_screen(before: Seq<char>, m: Machine, h: Hearing, append_space: bool)
    requires
        m.state == State::Dictating,
        m.enabled,
    ensures
        ({
            let (next, list) = step(m, Event::Heard(h), append_space);
            let screen = screen_after(before + m.emitted, list);
            screen == (if h.endpoint && append_space && h.target.len() > 0 {
                before + h.target + " "@
            } else if h.endpoint || h.live_typing {
                before + h.target
            } else {
                before + m.emitted
            })
        }),
{
    lemma_screen_dictated(before, m, h, append_space);
    assert(before + h.target + Seq::<char>::empty() =~= before + h.target);
    assert(before + m.emitted + Seq::<char>::empty() =~= before + m.emitted);
}

/// What the windows are told agrees with the machine: if it did before an event,
/// it does after it.
#[verifier::rlimit(40)]
pub proof fn law_windows_are_told(m: Machine, ev: Event, append_space: bool)
    ensures
        ({
            let (next, list) = step(m, ev, append_space);
            &&& told_dictating(m.state == State::Dictating, list) == (next.state
                == State::Dictating)
            &&& told_enabled(m.enabled, list) == next.enabled
        }),
{
    let (next, list) = step(m, ev, append_space);
    let d = m.state == State::Dictating;
    let e = m.enabled;
    lemma_told_stop(m, append_space);
    match ev {
        Event::SetEnabled(on) => {
            let mid = if on {
                Seq::<Act>::empty()
            } else {
                stop(m, append_space).1
            };
            let first = seq![Act::StoreEnabled(on)];
            let last = seq![Act::ResetRecognizer, Act::PostState];
            lemma_told_concat(d, e, first + mid, last);
            lemma_told_concat(d, e, first, mid);
            lemma_one(Seq::empty(), d, e, Act::StoreEnabled(on));
            lemma_told_silent(d, on, mid, last);
            assert(told_enabled(on, mid) == on) by {
                lemma_told_stop(Machine { enabled: on, ..m }, append_space);
            }
        },
        Event::Reset => {
            lemma_one(Seq::empty(), d, e, Act::ResetRecognizer);
        },
        Event::Reload => {
            lemma_told_concat(d, e, stop(m, append_space).1, seq![Act::Rebuild]);
            lemma_one(Seq::empty(), told_dictating(d, stop(m, append_space).1), e, Act::Rebuild);
        },
        Event::Rebuilt(ok) => {
            lemma_one(Seq::empty(), d, e, Act::ReportFailure);
        },
        Event::Toggle => {
            lemma_told_start(d, e);
        },
        Event::Heard(h) => {
            if m.enabled {
                match m.state {
                    State::Idle => {
                        lemma_told_start(d, e);
                        lemma_one(Seq::empty(), d, e, Act::ResetRecognizer);
                    },
                    State::Dictating => {
                        lemma_told_dictated(m, h, append_space);
                    },
                }
            }
        },
        Event::Silence(too_long) => {},
    }
}

// Actions without a store tell nothing.
spec fn tells_nothing(list: Seq<Act>) -> bool {
    forall|k: int|
        0 <= k < list.len() ==> !(#[trigger] list[k] is StoreDictating) && !(
        list[k] is StoreEnabled)
}

proof fn lemma_tells_nothing(d: bool, e: bool, list: Seq<Act>)
    requires
        tells_nothing(list),
    ensures
        told_dictating(d, list) == d,
        told_enabled(e, list) == e,
    decreases list.len(),
{
    if list.len() > 0 {
        assert(tells_nothing(list.drop_last())) by {
            assert forall|k: int| 0 <= k < list.drop_last().len() implies !(
            #[trigger] list.drop_last()[k] is StoreDictating) && !(
            list.drop_last()[k] is StoreEnabled) by {
                assert(list[k] == list.drop_last()[k]);
            }
        }
        lemma_tells_nothing(d, e, list.drop_last());
        assert(!(list[list.len() - 1] is StoreDictating));
    }
}

proof fn lemma_told_silent(d: bool, e: bool, mid: Seq<Act>, last: Seq<Act>)
    requires
        tells_nothing(last),
    ensures
        told_dictating(told_dictating(d, mid), last) == told_dictating(d, mid),
        told_enabled(told_enabled(e, mid), last) == told_enabled(e, mid),
{
    lemma_tells_nothing(told_dictating(d, mid), told_enabled(e, mid), last);
}

proof fn lemma_told_stop(m: Machine, append_space: bool)
    ensures
        told_dictating(m.state == State::Dictating, stop(m, append_space).1) == false,
        told_enabled(m.enabled, stop(m, append_space).1) == m.enabled,
{
    lemma_told_stopping(m.state == State::Dictating, m.enabled, m.emitted, append_space);
}

proof fn lemma_told_stopping(d: bool, e: bool, emitted: Seq<char>, append_space: bool)
    ensures
        !told_dictating(d, stopping(emitted, append_space)),
        told_enabled(e, stopping(emitted, append_space)) == e,
{
    let fin = finalized(emitted, append_space);
    let a = fin + seq![Act::ResetRecognizer];
    let b = a + seq![Act::StoreDictating(false)];
    let c = b + seq![Act::PostState];
    assert(stopping(emitted, append_space) =~= c);
    lemma_tells_nothing(d, e, a);
    lemma_told_concat(d, e, a, seq![Act::StoreDictating(false)]);
    lemma_one(Seq::empty(), d, e, Act::StoreDictating(false));
    lemma_told_concat(d, e, b, seq![Act::PostState]);
    lemma_one(Seq::empty(), false, e, Act::PostState);
}

proof fn lemma_told_start(d: bool, e: bool)
    ensures
        told_dictating(d, starting() + seq![Act::NoteSpeech]),
        told_enabled(e, starting() + seq![Act::NoteSpeech]) == e,
{
    let a = seq![Act::ResetRecognizer];
    let b = seq![Act::StoreDictating(true)];
    let c = seq![Act::PostState, Act::NoteSpeech];
    assert(starting() + seq![Act::NoteSpeech] =~= a + b + c);
    lemma_told_concat(d, e, a + b, c);
    lemma_told_concat(d, e, a, b);
    lemma_tells_nothing(d, e, a);
    lemma_one(Seq::empty(), d, e, Act::StoreDictating(true));
    lemma_tells_nothing(true, e, c);
}

proof fn lemma_told_dictated(m: Machine, h: Hearing, append_space: bool)
    ensures
        ({
            let (next, list) = dictated(m, h, append_space);
            &&& told_dictating(true, list) == !(h.endpoint && h.stopped)
            &&& told_enabled(m.enabled, list) == m.enabled
        }),
{
    let noted = if h.speech {
        seq![Act::NoteSpeech]
    } else {
        Seq::<Act>::empty()
    };
    let typed = h.live_typing || h.endpoint;
    let keys = if typed {
        reconciled(m.emitted, h.target)
    } else {
        Seq::<Act>::empty()
    };
    let shown = if typed {
        h.target
    } else {
        m.emitted
    };
    assert(tells_nothing(noted + keys));
    lemma_tells_nothing(true, m.enabled, noted + keys);
    if h.endpoint {
        if h.stopped {
            lemma_told_concat(true, m.enabled, noted + keys, stopping(shown, append_space));
            lemma_told_stopping(true, m.enabled, shown, append_space);
        } else {
            let list = noted + keys + finalized(shown, append_space) + seq![Act::ResetRecognizer];
            assert(tells_nothing(list));
            lemma_tells_nothing(true, m.enabled, list);
        }
    }
}

/// Starting and ending dictation by hand, with nothing said in between, leaves
/// the machine as it was and types nothing.
pub proof fn law_toggle_twice(m: Machine, append_space: bool)
    requires
        m.state == State::Idle,
        quiet(m),
    ensures
        ({
            let (on, first) = step(m, Event::Toggle, append_space);
            let (off, second) = step(on, Event::Toggle, append_space);
            &&& on.state == State::Dictating
            &&& off == m
            &&& no_keys(first)
            &&& no_keys(second)
        }),
{
}

/// A finished phrase with a stop word ends dictation.
pub proof fn law_stop_word_ends(m: Machine, h: Hearing, append_space: bool)
    requires
        m.enabled,
        m.state == State::Dictating,
        h.endpoint,
        h.stopped,
    ensures
        step(m, Event::Heard(h), append_space).0.state == State::Idle,
{
}

/// Dictation begins only with a wake word or by hand.
pub proof fn law_dictation_needs_a_cause(m: Machine, ev: Event, append_space: bool)
    requires
        m.state == State::Idle,
        step(m, ev, append_space).0.state == State::Dictating,
    ensures
        ev is Toggle || (m.enabled && (ev matches Event::Heard(h) && h.speech && h.woken)),
{
}

} // verus!
