//! The stateful lexer: a stateless lexer, a text and the progress through it.
use crate::lexer::action::Action;
use crate::lexer::instant::Instant;
use crate::lexer::options::{default_lex_options_base, LexOptions, TrimOptions};
use crate::lexer::output::{LexOutput, TrimOutput};
use crate::lexer::re_lex::ReLexContext;
use crate::lexer::snapshot::Snapshot;
use crate::lexer::stateless::lex::{
    expectation_known, lemma_lex_spec_bounds, lemma_trim_spec_bounds,
    lex_output_spec, lex_spec, literal_view, start_index, trim_spec,
};
use crate::lexer::stateless::options::StatelessOptions;
use crate::lexer::stateless::StatelessLexer;
use crate::text::{byte_len, char_index, is_boundary, lemma_byte_len_split, lemma_char_index};
use std::rc::Rc;
use vstd::prelude::*;

verus! {

/// `Rc::clone`: another pointer to the same value.
#[verifier::external_body]
pub(crate) fn rc_clone<T>(r: &Rc<T>) -> (c: Rc<T>)
    ensures
        *c == **r,
{
    Rc::clone(r)
}

/// A lexer of one text: the stateless lexer (shared), the state, and the
/// progress through the text.
#[derive(Debug)]
pub struct Lexer<'text, State> {
    /// The state.
    pub state: State,
    stateless: Rc<StatelessLexer>,
    instant: Instant<'text>,
}

/// Something that can become a lexer of a text.
pub trait IntoLexer<State>: Sized {
    /// The actions of the lexer.
    spec fn spec_into_actions(&self) -> Seq<Action>;

    /// A lexer of `text` with the state `state`, at the start of the text.
    fn into_lexer_with<'text>(self, state: State, text: &'text str) -> (r: Lexer<'text, State>)
        ensures
            r.spec_actions() == self.spec_into_actions(),
            r.spec_state() == state,
            r.spec_instant().spec_text() == text,
            r.spec_instant().spec_digested() == 0,
            r.spec_instant().spec_trimmed() == (text@.len() == 0),
    ;

    /// A lexer of `text` with the default state, at the start of the text.
    fn into_lexer<'text>(self, text: &'text str) -> (r: Lexer<'text, State>) where State: Default
        ensures
            r.spec_actions() == self.spec_into_actions(),
            call_ensures(State::default, (), r.spec_state()),
            r.spec_instant().spec_text() == text,
            r.spec_instant().spec_digested() == 0,
            r.spec_instant().spec_trimmed() == (text@.len() == 0),
    {
        let state = State::default();
        self.into_lexer_with(state, text)
    }
}

impl<State> IntoLexer<State> for StatelessLexer {
    open spec fn spec_into_actions(&self) -> Seq<Action> {
        self.spec_actions()
    }

    fn into_lexer_with<'text>(self, state: State, text: &'text str) -> (r: Lexer<'text, State>) {
        let ghost actions = self.spec_actions();
        assert(<StatelessLexer as IntoLexer<State>>::spec_into_actions(&self) == actions);
        let shared = Rc::new(self);
        assert((*shared).spec_actions() == actions);
        Lexer::new(shared, state, text)
    }
}

impl<State> IntoLexer<State> for Rc<StatelessLexer> {
    open spec fn spec_into_actions(&self) -> Seq<Action> {
        (**self).spec_actions()
    }

    fn into_lexer_with<'text>(self, state: State, text: &'text str) -> (r: Lexer<'text, State>) {
        Lexer::new(self, state, text)
    }
}

impl<'text, State> Lexer<'text, State> {
    /// The actions of the stateless lexer.
    pub closed spec fn spec_actions(&self) -> Seq<Action> {
        (*self.stateless).spec_actions()
    }

    /// The state.
    pub closed spec fn spec_state(&self) -> State {
        self.state
    }

    /// The progress through the text.
    pub closed spec fn spec_instant(&self) -> Instant<'text> {
        self.instant
    }

    /// A lexer of `text` with `stateless` and `state`, at the start of the text.
    pub fn new(stateless: Rc<StatelessLexer>, state: State, text: &'text str) -> (r: Self)
        ensures
            r.spec_actions() == (*stateless).spec_actions(),
            r.spec_state() == state,
            r.spec_instant().spec_text() == text,
            r.spec_instant().spec_digested() == 0,
            r.spec_instant().spec_trimmed() == (text@.len() == 0),
    {
        Lexer { state, stateless, instant: Instant::new(text) }
    }

    /// The stateless lexer.
    pub fn stateless(&self) -> (r: &Rc<StatelessLexer>)
        ensures
            (**r).spec_actions() == self.spec_actions(),
    {
        &self.stateless
    }

    /// The progress through the text.
    pub fn instant(&self) -> (r: &Instant<'text>)
        ensures
            *r == self.spec_instant(),
    {
        &self.instant
    }

    /// A lexer at the same progress with the same stateless lexer, and the state `state`.
    pub fn clone_with(&self, state: State) -> (r: Self)
        ensures
            r.spec_actions() == self.spec_actions(),
            r.spec_instant() == self.spec_instant(),
            r.spec_state() == state,
    {
        Lexer { state, stateless: rc_clone(&self.stateless), instant: self.instant }
    }

    /// A lexer of another text with the same stateless lexer, at its start,
    /// with the state `state`.
    pub fn reload_with<'new_text>(self, text: &'new_text str, state: State) -> (r: Lexer<'new_text, State>)
        ensures
            r.spec_actions() == self.spec_actions(),
            r.spec_state() == state,
            r.spec_instant().spec_text() == text,
            r.spec_instant().spec_digested() == 0,
            r.spec_instant().spec_trimmed() == (text@.len() == 0),
    {
        Lexer::new(self.stateless, state, text)
    }

    /// Restore the progress and the state of a snapshot.
    pub fn restore(&mut self, snapshot: Snapshot<'text, State>)
        ensures
            final(self).spec_actions() == old(self).spec_actions(),
            final(self).spec_instant() == snapshot.instant,
            final(self).spec_state() == snapshot.state,
    {
        self.state = snapshot.state;
        self.instant = snapshot.instant;
    }

    /// A lexer with the same stateless lexer, at the progress and with the
    /// state of a snapshot.
    pub fn clone_with_snapshot(&self, snapshot: Snapshot<'text, State>) -> (r: Self)
        ensures
            r.spec_actions() == self.spec_actions(),
            r.spec_instant() == snapshot.instant,
            r.spec_state() == snapshot.state,
    {
        Lexer { state: snapshot.state, stateless: rc_clone(&self.stateless), instant: snapshot.instant }
    }

    /// What [`Self::lex_with_options`] would yield, without changing the
    /// lexer, and a clone of the state.
    pub fn peek_with_options(&self, options: LexOptions) -> (r: (LexOutput, State))
        where State: Clone,
        requires
            expectation_known(
                self.spec_actions(),
                options.expectation.kind,
                literal_view(options.expectation.literal),
            ),
        ensures
            lex_output_spec(
                self.spec_actions(),
                options.expectation.kind,
                literal_view(options.expectation.literal),
                options.fork,
                options.re_lex,
                self.spec_instant().spec_text()@,
                self.spec_instant().spec_digested(),
                r.0,
            ),
            cloned(self.spec_state(), r.1),
    {
        let text = self.instant.text();
        let start = self.instant.digested();
        self.stateless.peek_with_options(text, StatelessOptions { start, state: &self.state, heap: (), base: options })
    }

    /// Peek with options built from the default ones.
    pub fn peek_with<'literal, F: FnOnce(LexOptions<'literal>) -> LexOptions<'literal>>(
        &self,
        options_builder: F,
    ) -> (r: (LexOutput, State))
        where State: Clone,
        requires
            options_builder.requires((default_lex_options_base(),)),
            forall|o: LexOptions<'literal>|
                #[trigger] options_builder.ensures((default_lex_options_base(),), o)
                    ==> expectation_known(
                    self.spec_actions(),
                    o.expectation.kind,
                    literal_view(o.expectation.literal),
                ),
        ensures
            exists|o: LexOptions<'literal>|
                #[trigger] options_builder.ensures((default_lex_options_base(),), o) && lex_output_spec(
                    self.spec_actions(),
                    o.expectation.kind,
                    literal_view(o.expectation.literal),
                    o.fork,
                    o.re_lex,
                    self.spec_instant().spec_text()@,
                    self.spec_instant().spec_digested(),
                    r.0,
                ),
            cloned(self.spec_state(), r.1),
    {
        let o = options_builder(LexOptions::new());
        self.peek_with_options(o)
    }

    /// Peek with the default options.
    pub fn peek(&self) -> (r: (LexOutput, State))
        where State: Clone,
        ensures
            lex_output_spec(
                self.spec_actions(),
                None,
                None,
                false,
                ReLexContext { start: 0, skip: 0 },
                self.spec_instant().spec_text()@,
                self.spec_instant().spec_digested(),
                r.0,
            ),
            cloned(self.spec_state(), r.1),
    {
        self.peek_with_options(LexOptions::new())
    }

    /// Lex from the current progress, and digest what the lex digested.
    pub fn lex_with_options(&mut self, options: LexOptions) -> (r: LexOutput)
        requires
            expectation_known(
                old(self).spec_actions(),
                options.expectation.kind,
                literal_view(options.expectation.literal),
            ),
        ensures
            lex_output_spec(
                old(self).spec_actions(),
                options.expectation.kind,
                literal_view(options.expectation.literal),
                options.fork,
                options.re_lex,
                old(self).spec_instant().spec_text()@,
                old(self).spec_instant().spec_digested(),
                r,
            ),
            final(self).spec_actions() == old(self).spec_actions(),
            final(self).spec_instant().spec_text() == old(self).spec_instant().spec_text(),
            final(self).spec_instant().spec_digested() == old(self).spec_instant().spec_digested()
                + r.digested,
            final(self).spec_state() == old(self).spec_state(),
    {
        let text = self.instant.text();
        let start = self.instant.digested();
        let r = self.stateless.lex_with_options(
            text,
            StatelessOptions { start, state: (), heap: (), base: options },
        );
        proof {
            let t = text@;
            let k0 = start_index(t, start as nat);
            lemma_char_index(t, char_index(t, start as int));
            lemma_byte_len_split(t, k0 as int);
            lemma_lex_spec_bounds(
                self.spec_actions(),
                options.expectation.kind,
                literal_view(options.expectation.literal),
                options.re_lex,
                t,
                k0,
            );
            let k1 = lex_spec(
                self.spec_actions(),
                options.expectation.kind,
                literal_view(options.expectation.literal),
                options.re_lex,
                t,
                k0,
            ).1;
            assert(is_boundary(t, byte_len(t.take(k1 as int)) as int));
            if start >= byte_len(t) {
                assert(t.take(t.len() as int) == t);
            }
        }
        self.instant.digest(r.digested);
        r
    }

    /// Lex with options built from the default ones.
    pub fn lex_with<'literal, F: FnOnce(LexOptions<'literal>) -> LexOptions<'literal>>(
        &mut self,
        options_builder: F,
    ) -> (r: LexOutput)
        requires
            options_builder.requires((default_lex_options_base(),)),
            forall|o: LexOptions<'literal>|
                #[trigger] options_builder.ensures((default_lex_options_base(),), o)
                    ==> expectation_known(
                    old(self).spec_actions(),
                    o.expectation.kind,
                    literal_view(o.expectation.literal),
                ),
        ensures
            exists|o: LexOptions<'literal>|
                #[trigger] options_builder.ensures((default_lex_options_base(),), o) && lex_output_spec(
                    old(self).spec_actions(),
                    o.expectation.kind,
                    literal_view(o.expectation.literal),
                    o.fork,
                    o.re_lex,
                    old(self).spec_instant().spec_text()@,
                    old(self).spec_instant().spec_digested(),
                    r,
                ),
            final(self).spec_actions() == old(self).spec_actions(),
            final(self).spec_instant().spec_text() == old(self).spec_instant().spec_text(),
            final(self).spec_instant().spec_digested() == old(self).spec_instant().spec_digested()
                + r.digested,
            final(self).spec_state() == old(self).spec_state(),
    {
        let o = options_builder(LexOptions::new());
        self.lex_with_options(o)
    }

    /// Lex with the default options.
    pub fn lex(&mut self) -> (r: LexOutput)
        ensures
            lex_output_spec(
                old(self).spec_actions(),
                None,
                None,
                false,
                ReLexContext { start: 0, skip: 0 },
                old(self).spec_instant().spec_text()@,
                old(self).spec_instant().spec_digested(),
                r,
            ),
            final(self).spec_actions() == old(self).spec_actions(),
            final(self).spec_instant().spec_text() == old(self).spec_instant().spec_text(),
            final(self).spec_instant().spec_digested() == old(self).spec_instant().spec_digested()
                + r.digested,
            final(self).spec_state() == old(self).spec_state(),
    {
        self.lex_with_options(LexOptions::new())
    }

    /// Digest `n` bytes, and set the state to `state` if it is `Some`.
    pub fn digest_with(&mut self, n: usize, state: Option<State>)
        requires
            is_boundary(
                old(self).spec_instant().spec_text()@,
                old(self).spec_instant().spec_digested() + n,
            ),
        ensures
            final(self).spec_actions() == old(self).spec_actions(),
            final(self).spec_instant().spec_text() == old(self).spec_instant().spec_text(),
            final(self).spec_instant().spec_digested() == old(self).spec_instant().spec_digested() + n,
            final(self).spec_instant().spec_trimmed() == if n == 0 {
                old(self).spec_instant().spec_trimmed()
            } else {
                old(self).spec_instant().spec_digested() + n == byte_len(
                    old(self).spec_instant().spec_text()@,
                )
            },
            final(self).spec_state() == match state {
                Some(s) => s,
                None => old(self).spec_state(),
            },
    {
        self.instant.digest(n);
        match state {
            Some(s) => {
                self.state = s;
            },
            None => {},
        }
    }

    /// Trim from the current progress, unless the rest is already trimmed.
    pub fn trim_with_options(&mut self, options: TrimOptions) -> (r: Option<TrimOutput>)
        ensures
            final(self).spec_actions() == old(self).spec_actions(),
            final(self).spec_state() == old(self).spec_state(),
            final(self).spec_instant().spec_text() == old(self).spec_instant().spec_text(),
            old(self).spec_instant().spec_trimmed() ==> r is None && final(self).spec_instant()
                == old(self).spec_instant(),
            !old(self).spec_instant().spec_trimmed() ==> (r matches Some(o) && {
                let t = old(self).spec_instant().spec_text()@;
                let k0 = start_index(t, old(self).spec_instant().spec_digested());
                &&& o.digested == byte_len(t.take(trim_spec(old(self).spec_actions(), t, k0) as int))
                    - byte_len(t.take(k0 as int))
                &&& final(self).spec_instant().spec_digested() == old(self).spec_instant().spec_digested()
                    + o.digested
                &&& final(self).spec_instant().spec_trimmed()
            }),
    {
        if self.instant.trimmed() {
            return None;
        }
        let text = self.instant.text();
        let start = self.instant.digested();
        let res = self.stateless.trim_with_options(
            text,
            StatelessOptions { start, state: (), heap: (), base: options },
        );
        proof {
            let t = text@;
            let k0 = start_index(t, start as nat);
            lemma_char_index(t, char_index(t, start as int));
            lemma_byte_len_split(t, k0 as int);
            lemma_trim_spec_bounds(self.spec_actions(), t, k0);
            let k1 = trim_spec(self.spec_actions(), t, k0);
            assert(is_boundary(t, byte_len(t.take(k1 as int)) as int));
            if start >= byte_len(t) {
                assert(t.take(t.len() as int) == t);
            }
        }
        self.instant.trim(res.digested);
        Some(res)
    }

    /// Trim with options built from the default ones.
    pub fn trim_with<F: FnOnce(TrimOptions) -> TrimOptions>(&mut self, f: F) -> (r: Option<TrimOutput>)
        requires
            f.requires((TrimOptions,)),
        ensures
            final(self).spec_actions() == old(self).spec_actions(),
            final(self).spec_state() == old(self).spec_state(),
            final(self).spec_instant().spec_text() == old(self).spec_instant().spec_text(),
            old(self).spec_instant().spec_trimmed() ==> r is None && final(self).spec_instant()
                == old(self).spec_instant(),
            !old(self).spec_instant().spec_trimmed() ==> (r matches Some(o) && {
                let t = old(self).spec_instant().spec_text()@;
                let k0 = start_index(t, old(self).spec_instant().spec_digested());
                &&& o.digested == byte_len(t.take(trim_spec(old(self).spec_actions(), t, k0) as int))
                    - byte_len(t.take(k0 as int))
                &&& final(self).spec_instant().spec_digested() == old(self).spec_instant().spec_digested()
                    + o.digested
                &&& final(self).spec_instant().spec_trimmed()
            }),
    {
        let o = f(TrimOptions);
        self.trim_with_options(o)
    }

    /// Trim with the default options.
    pub fn trim(&mut self) -> (r: Option<TrimOutput>)
        ensures
            final(self).spec_actions() == old(self).spec_actions(),
            final(self).spec_state() == old(self).spec_state(),
            final(self).spec_instant().spec_text() == old(self).spec_instant().spec_text(),
            old(self).spec_instant().spec_trimmed() ==> r is None && final(self).spec_instant()
                == old(self).spec_instant(),
            !old(self).spec_instant().spec_trimmed() ==> (r matches Some(o) && {
                let t = old(self).spec_instant().spec_text()@;
                let k0 = start_index(t, old(self).spec_instant().spec_digested());
                &&& o.digested == byte_len(t.take(trim_spec(old(self).spec_actions(), t, k0) as int))
                    - byte_len(t.take(k0 as int))
                &&& final(self).spec_instant().spec_digested() == old(self).spec_instant().spec_digested()
                    + o.digested
                &&& final(self).spec_instant().spec_trimmed()
            }),
    {
        self.trim_with_options(TrimOptions)
    }
}

impl<'text, State: Clone> Clone for Lexer<'text, State> {
    /// A lexer sharing the stateless lexer, at the same progress, with a
    /// clone of the state.
    fn clone(&self) -> (r: Self)
        ensures
            r.spec_actions() == self.spec_actions(),
            r.spec_instant() == self.spec_instant(),
            cloned(self.spec_state(), r.spec_state()),
    {
        Lexer { state: self.state.clone(), stateless: rc_clone(&self.stateless), instant: self.instant }
    }
}

impl<'text, State: Clone> Lexer<'text, State> {
    /// A snapshot of the progress and a clone of the state.
    pub fn snapshot(&self) -> (r: Snapshot<'text, State>)
        ensures
            r.instant == self.spec_instant(),
            cloned(self.spec_state(), r.state),
    {
        Snapshot { state: self.state.clone(), instant: self.instant }
    }
}

impl<'text, State: Default> Lexer<'text, State> {
    /// A lexer of another text with the same stateless lexer and the
    /// default state, at its start.
    pub fn reload<'new_text>(self, text: &'new_text str) -> (r: Lexer<'new_text, State>)
        ensures
            r.spec_actions() == self.spec_actions(),
            call_ensures(State::default, (), r.spec_state()),
            r.spec_instant().spec_text() == text,
            r.spec_instant().spec_digested() == 0,
            r.spec_instant().spec_trimmed() == (text@.len() == 0),
    {
        let state = State::default();
        self.reload_with(text, state)
    }

    /// Digest `n` bytes and set the default state.
    pub fn digest(&mut self, n: usize)
        requires
            is_boundary(
                old(self).spec_instant().spec_text()@,
                old(self).spec_instant().spec_digested() + n,
            ),
        ensures
            final(self).spec_actions() == old(self).spec_actions(),
            final(self).spec_instant().spec_text() == old(self).spec_instant().spec_text(),
            final(self).spec_instant().spec_digested() == old(self).spec_instant().spec_digested() + n,
            final(self).spec_instant().spec_trimmed() == if n == 0 {
                old(self).spec_instant().spec_trimmed()
            } else {
                old(self).spec_instant().spec_digested() + n == byte_len(
                    old(self).spec_instant().spec_text()@,
                )
            },
            call_ensures(State::default, (), final(self).spec_state()),
    {
        let state = State::default();
        self.digest_with(n, Some(state))
    }
}

/// A lex or a peek of a lexer with some options yields what the stateless
/// lexer's lex yields on the lexer's text, from the lexer's progress, with
/// the same options: `r` meets what [`Lexer::lex_with_options`] and
/// [`Lexer::peek_with_options`] ensure, `s` what
/// [`StatelessLexer::lex_with_options`] ensures (the stateless lexer of the
/// lexer has its actions, see [`Lexer::stateless`]); the two agree on the
/// digested bytes, the fork context and the token.
pub proof fn law_lexer_lex_is_stateless_lex<'text, State>(
    lexer: Lexer<'text, State>,
    options: LexOptions,
    r: LexOutput,
    s: LexOutput,
)
    requires
        lex_output_spec(
            lexer.spec_actions(),
            options.expectation.kind,
            literal_view(options.expectation.literal),
            options.fork,
            options.re_lex,
            lexer.spec_instant().spec_text()@,
            lexer.spec_instant().spec_digested(),
            r,
        ),
        lex_output_spec(
            lexer.spec_actions(),
            options.expectation.kind,
            literal_view(options.expectation.literal),
            options.fork,
            options.re_lex,
            lexer.spec_instant().spec_text()@,
            lexer.spec_instant().spec_digested(),
            s,
        ),
    ensures
        r.digested == s.digested,
        r.fork == s.fork,
        r.token is Some <==> s.token is Some,
        r.token matches Some(t1) ==> (s.token matches Some(t2) && t1.kind == t2.kind && t1.range
            == t2.range && crate::lexer::action::same_data(t1.data, t2.data)),
{
    crate::lexer::stateless::lex::law_lex_output_unique(
        lexer.spec_actions(),
        options.expectation.kind,
        literal_view(options.expectation.literal),
        options.fork,
        options.re_lex,
        lexer.spec_instant().spec_text()@,
        lexer.spec_instant().spec_digested(),
        r,
        s,
    );
}

} // verus!
