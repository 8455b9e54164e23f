use crate::errors::DataError;
use crate::rng::DrawLog;
use rand::rngs::StdRng;
use vstd::arithmetic::div_mod::lemma_small_mod;
use vstd::prelude::*;

verus! {

/// Answers of a token stream, oldest first.
pub type StreamAnswers = Seq<Option<Result<u32, DataError>>>;

/// A stream of tokens, such as the bytes of a list of files.
pub trait TokenSource {
    /// Every answer the stream has given to `pull`, oldest first. It exists for proofs only.
    spec fn given(&self) -> StreamAnswers;

    /// The answers the stream will give to its next pulls, oldest first, as far as they are
    /// known in advance (a stream over tokens held in memory knows them all). It exists for
    /// proofs only; nothing is known of a stream that does not say.
    open spec fn upcoming(&self) -> StreamAnswers {
        Seq::empty()
    }

    /// The next token: `None` where the stream has ended, an error where reading failed.
    /// The answer is added to what the stream has given; where it was known in advance, it
    /// is the first of the upcoming answers, which then move up by one.
    fn pull(&mut self) -> (r: Option<Result<u32, DataError>>)
        ensures
            final(self).given() == old(self).given().push(r),
            old(self).upcoming().len() > 0 ==> r == old(self).upcoming()[0]
                && final(self).upcoming() == old(self).upcoming().drop_first(),
    ;
}

/// A batch of training sequences: `y[b][k]` is the token that follows `x[b][k]`.
pub struct Batch {
    /// Input sequences, one row per sequence.
    pub x: Vec<Vec<u32>>,
    /// Target sequences: each row is its input row shifted by one token.
    pub y: Vec<Vec<u32>>,
}

impl View for Batch {
    type V = (Seq<Seq<u32>>, Seq<Seq<u32>>);

    open spec fn view(&self) -> Self::V {
        (self.x@.map_values(|r: Vec<u32>| r@), self.y@.map_values(|r: Vec<u32>| r@))
    }
}

/// The input rows drawn from `window` at `starts`: `t` tokens from each start.
pub open spec fn window_inputs(window: Seq<u32>, starts: Seq<int>, t: nat) -> Seq<Seq<u32>> {
    starts.map_values(|s: int| window.subrange(s, s + t))
}

/// The target rows drawn from `window` at `starts`: `t` tokens from one past each start.
pub open spec fn window_targets(window: Seq<u32>, starts: Seq<int>, t: nat) -> Seq<Seq<u32>> {
    starts.map_values(|s: int| window.subrange(s + 1, s + t + 1))
}

/// Every start leaves room for `t + 1` tokens inside a window of `window_len` tokens.
pub open spec fn starts_fit(starts: Seq<int>, window_len: nat, t: nat) -> bool {
    forall|i: int| 0 <= i < starts.len() ==> 0 <= #[trigger] starts[i] && starts[i] + t + 1 <= window_len
}

/// `b` holds `batch_size` contiguous windows of `t + 1` tokens of `window`, split into inputs and
/// targets.
pub open spec fn is_window_batch(
    b: (Seq<Seq<u32>>, Seq<Seq<u32>>),
    window: Seq<u32>,
    batch_size: nat,
    t: nat,
) -> bool {
    exists|starts: Seq<int>|
        #![trigger starts_fit(starts, window.len(), t)]
        starts.len() == batch_size && starts_fit(starts, window.len(), t) && b.0 == window_inputs(
            window,
            starts,
            t,
        ) && b.1 == window_targets(window, starts, t)
}

/// Every target row is its input row shifted by one token, and all rows have `t` tokens.
pub open spec fn targets_follow_inputs(b: (Seq<Seq<u32>>, Seq<Seq<u32>>), t: nat) -> bool {
    &&& b.0.len() == b.1.len()
    &&& forall|i: int| 0 <= i < b.0.len() ==> (#[trigger] b.0[i]).len() == t && b.1[i].len() == t
    &&& forall|i: int, k: int|
        0 <= i < b.0.len() && 0 <= k < t - 1 ==> #[trigger] b.1[i][k] == b.0[i][k + 1]
}

/// A batch of windows has targets that are its inputs shifted by one token.
pub proof fn lemma_window_batch_targets(
    b: (Seq<Seq<u32>>, Seq<Seq<u32>>),
    window: Seq<u32>,
    batch_size: nat,
    t: nat,
)
    requires
        is_window_batch(b, window, batch_size, t),
    ensures
        targets_follow_inputs(b, t),
        b.0.len() == batch_size,
{
    let starts = choose|starts: Seq<int>|
        #![trigger starts_fit(starts, window.len(), t)]
        starts.len() == batch_size && starts_fit(starts, window.len(), t) && b.0 == window_inputs(
            window,
            starts,
            t,
        ) && b.1 == window_targets(window, starts, t);
    assert forall|i: int| 0 <= i < b.0.len() implies (#[trigger] b.0[i]).len() == t && b.1[i].len()
        == t by {
        assert(0 <= starts[i]);
    }
    assert forall|i: int, k: int| 0 <= i < b.0.len() && 0 <= k < t - 1 implies #[trigger] b.1[i][k]
        == b.0[i][k + 1] by {
        assert(0 <= starts[i]);
    }
}

/// The window starts drawn between ring states `pre` and `post`, in the order drawn.
pub open spec fn drawn_starts(pre: RingModel, post: RingModel) -> Seq<int> {
    post.draws.subrange(pre.draws.len() as int, post.draws.len() as int).map_values(
        |d: (usize, usize)| d.1 as int,
    )
}

/// What a call of `next_batch` with `batch_size` sequences may do to a ring `pre`, giving
/// ring `post` and result `r`.
/// - Before the first warmup: the error "call warmup() before next_batch", nothing changed.
/// - Once the stream has ended or the token budget is spent: `Ok(None)`, nothing changed.
/// - Otherwise: `batch_size` window starts are drawn one after another, each from all the
///   starts that fit, and row `i` of the batch is the window of the ring as it was at the
///   `i`-th of them; then up to
///   `advance` fresh tokens were read (fewer only where the stream ended, the budget was
///   spent, or reading failed, the last giving the stream's error in place of the batch).
pub open spec fn next_batch_outcome(
    pre: RingModel,
    post: RingModel,
    batch_size: nat,
    r: Result<Option<Batch>, DataError>,
) -> bool {
    &&& post.same_settings(pre)
    &&& !pre.filled ==> post == pre && (r matches Err(DataError::Io(m)) && m@
        == "call warmup() before next_batch"@)
    &&& pre.filled && (pre.exhausted || pre.tokens_consumed() >= pre.max_tokens) ==> post == pre
        && (r matches Ok(None))
    &&& pre.filled && !pre.exhausted && pre.tokens_consumed() < pre.max_tokens ==> {
        let fresh = post.read.len() - pre.read.len();
        let answers = post.answers.subrange(pre.answers.len() as int, post.answers.len() as int);
        &&& post.filled
        &&& 0 <= fresh <= pre.advance
        &&& post.read.subrange(0, pre.read.len() as int) == pre.read
        &&& post.tokens_consumed() <= pre.max_tokens
        &&& post.answers.len() >= pre.answers.len()
        &&& post.answers.subrange(0, pre.answers.len() as int) == pre.answers
        &&& post.draws.len() == pre.draws.len() + batch_size
        &&& post.draws.subrange(0, pre.draws.len() as int) == pre.draws
        &&& starts_fit(drawn_starts(pre, post), pre.cap, pre.sequence_length)
        &&& forall|j: int|
            pre.draws.len() <= j < post.draws.len() ==> (#[trigger] post.draws[j]).0
                + pre.sequence_length + 1 == pre.cap
        &&& !(r matches Ok(None))
        &&& match r {
            Ok(Some(b)) => {
                &&& is_window_batch(b@, pre.window(), batch_size, pre.sequence_length)
                &&& b@.0 == window_inputs(
                    pre.window(),
                    drawn_starts(pre, post),
                    pre.sequence_length,
                )
                &&& b@.1 == window_targets(
                    pre.window(),
                    drawn_starts(pre, post),
                    pre.sequence_length,
                )
                &&& targets_follow_inputs(b@, pre.sequence_length)
                &&& b@.0.len() == batch_size
                &&& (post.exhausted <==> fresh < pre.advance)
                &&& ({
                    ||| all_token_answers(answers) && post.read == pre.read + answered_tokens(
                        answers,
                    ) && (answers.len() == pre.advance || post.tokens_consumed()
                        >= pre.max_tokens)
                    ||| answers.len() >= 1 && answers.last() is None && all_token_answers(
                        answers.drop_last(),
                    ) && post.read == pre.read + answered_tokens(answers.drop_last())
                        && post.tokens_consumed() < pre.max_tokens
                })
            },
            Err(e) => {
                &&& answers.len() >= 1
                &&& answers.last() == Some::<Result<u32, DataError>>(Err(e))
                &&& all_token_answers(answers.drop_last())
                &&& post.read == pre.read + answered_tokens(answers.drop_last())
                &&& fresh < pre.advance
                &&& post.tokens_consumed() < pre.max_tokens
                &&& !post.exhausted
            },
            Ok(None) => true,
        }
    }
}

/// Each row of a batch comes from a draw of its own: a call of `next_batch` that gives a
/// batch draws `batch_size` window starts in turn, each from the full range of starts that
/// fit in the ring, and row `i`, inputs and targets, is the window of the ring (as it was
/// before the call) at the `i`-th of them.
pub proof fn lemma_rows_use_own_draws(pre: RingModel, post: RingModel, batch_size: nat, b: Batch)
    requires
        next_batch_outcome(pre, post, batch_size, Ok(Some(b))),
    ensures
        post.draws.len() == pre.draws.len() + batch_size,
        post.draws.subrange(0, pre.draws.len() as int) == pre.draws,
        forall|j: int|
            pre.draws.len() <= j < post.draws.len() ==> {
                &&& (#[trigger] post.draws[j]).0 + pre.sequence_length + 1 == pre.cap
                &&& post.draws[j].1 <= post.draws[j].0
            },
        b@.0.len() == batch_size,
        b@.1.len() == batch_size,
        forall|i: int|
            #![trigger b@.0[i]]
            #![trigger b@.1[i]]
            0 <= i < batch_size ==> {
                let d = post.draws[pre.draws.len() + i].1 as int;
                &&& b@.0[i] == pre.window().subrange(d, d + pre.sequence_length)
                &&& b@.1[i] == pre.window().subrange(d + 1, d + pre.sequence_length + 1)
            },
{
    let st = drawn_starts(pre, post);
    assert forall|j: int| pre.draws.len() <= j < post.draws.len() implies (
    #[trigger] post.draws[j]).1 <= post.draws[j].0 by {
        let i = j - pre.draws.len();
        assert(st[i] == post.draws[j].1 as int);
        assert(0 <= st[i] && st[i] + pre.sequence_length + 1 <= pre.cap);
    }
}

/// Appending a token answer to token answers gives token answers whose tokens are followed
/// by its token.
proof fn lemma_push_token_answer(
    answers: Seq<Option<Result<u32, DataError>>>,
    a: Option<Result<u32, DataError>>,
)
    requires
        all_token_answers(answers),
        is_token_answer(a),
    ensures
        all_token_answers(answers.push(a)),
        answered_tokens(answers.push(a)) == answered_tokens(answers).push(answer_token(a)),
        answers.push(a).drop_last() == answers,
{
    assert forall|i: int| 0 <= i < answers.push(a).len() implies is_token_answer(
        #[trigger] answers.push(a)[i],
    ) by {
        if i < answers.len() {
            assert(answers.push(a)[i] == answers[i]);
        }
    }
    assert(answered_tokens(answers.push(a)) =~= answered_tokens(answers).push(answer_token(a)));
    assert(answers.push(a).drop_last() =~= answers);
}

/// Once the stream has ended or the token budget is spent, every further call of
/// `next_batch` gives `Ok(None)` and leaves the ring as it was.
pub proof fn lemma_exhaustion_is_final(
    pre: RingModel,
    post: RingModel,
    batch_size: nat,
    r: Result<Option<Batch>, DataError>,
)
    requires
        pre.filled,
        pre.exhausted || pre.tokens_consumed() >= pre.max_tokens,
        next_batch_outcome(pre, post, batch_size, r),
    ensures
        post == pre,
        r matches Ok(None),
{
}

/// A call of `next_batch` never reads past the token budget, and keeps every token read
/// before it.
pub proof fn lemma_budget_respected(
    pre: RingModel,
    post: RingModel,
    batch_size: nat,
    r: Result<Option<Batch>, DataError>,
)
    requires
        next_batch_outcome(pre, post, batch_size, r),
    ensures
        post.tokens_consumed() <= if pre.tokens_consumed() > pre.max_tokens {
            pre.tokens_consumed()
        } else {
            pre.max_tokens
        },
        post.read.subrange(0, pre.read.len() as int) == pre.read,
        post.read.len() >= pre.read.len(),
{
    if post == pre {
        assert(post.read.subrange(0, pre.read.len() as int) =~= pre.read);
    }
}

/// The tokens among a sequence of answers, in order.
pub open spec fn tokens_in(answers: Seq<Option<Result<u32, DataError>>>) -> Seq<u32>
    decreases answers.len(),
{
    if answers.len() == 0 {
        Seq::empty()
    } else {
        match answers.last() {
            Some(Ok(t)) => tokens_in(answers.drop_last()).push(t),
            _ => tokens_in(answers.drop_last()),
        }
    }
}

/// One more answer adds its token, if it is one, to the tokens among the answers.
proof fn lemma_tokens_in_push(
    answers: Seq<Option<Result<u32, DataError>>>,
    a: Option<Result<u32, DataError>>,
)
    ensures
        tokens_in(answers.push(a)) == match a {
            Some(Ok(t)) => tokens_in(answers).push(t),
            _ => tokens_in(answers),
        },
{
    assert(answers.push(a).drop_last() =~= answers);
}

/// The stream answered with a token.
pub open spec fn is_token_answer(a: Option<Result<u32, DataError>>) -> bool {
    a matches Some(Ok(_))
}

/// The token of an answer that is one.
pub open spec fn answer_token(a: Option<Result<u32, DataError>>) -> u32 {
    match a {
        Some(Ok(t)) => t,
        _ => 0,
    }
}

/// Every answer is a token.
pub open spec fn all_token_answers(answers: Seq<Option<Result<u32, DataError>>>) -> bool {
    forall|i: int| 0 <= i < answers.len() ==> is_token_answer(#[trigger] answers[i])
}

/// The tokens of a sequence of answers.
pub open spec fn answered_tokens(answers: Seq<Option<Result<u32, DataError>>>) -> Seq<u32> {
    answers.map_values(|a: Option<Result<u32, DataError>>| answer_token(a))
}

/// The error that warmup gives for an answer that is not a token: the stream's own error,
/// or "unexpected EOF during warmup" where the stream has ended.
pub open spec fn warmup_error(a: Option<Result<u32, DataError>>, e: DataError) -> bool {
    match a {
        Some(Err(x)) => x == e,
        None => e matches DataError::Io(m) && m@ == "unexpected EOF during warmup"@,
        Some(Ok(_)) => false,
    }
}

/// `answers` agree with `known` wherever both have an answer.
pub open spec fn agrees_with(answers: StreamAnswers, known: StreamAnswers) -> bool {
    forall|i: int| 0 <= i < answers.len() && i < known.len() ==> #[trigger] answers[i] == known[i]
}

/// The outcome of a call, without the value it gave on success.
pub open spec fn outcome_of<T>(r: Result<T, DataError>) -> Result<(), DataError> {
    match r {
        Ok(_) => Ok(()),
        Err(e) => Err(e),
    }
}

/// What filling a ring of `cap` tokens gives where the stream's next answers are known to be
/// `upcoming` (maybe fewer than `cap` of them): `Ok` only where the known answers among the
/// first `cap` are all tokens; an error is that of the first known answer which is not a
/// token (its own error, or the end of the stream), or comes after all the known answers.
pub open spec fn warmup_result(upcoming: StreamAnswers, cap: nat, r: Result<(), DataError>) -> bool {
    let n = if upcoming.len() < cap {
        upcoming.len() as int
    } else {
        cap as int
    };
    match r {
        Ok(_) => all_token_answers(upcoming.take(n)),
        Err(e) => {
            ||| exists|k: int|
                0 <= k < n && all_token_answers(upcoming.take(k)) && warmup_error(
                    #[trigger] upcoming[k],
                    e,
                )
            ||| all_token_answers(upcoming.take(n)) && n < cap
        },
    }
}

/// From what one warmup of a ring of `cap` tokens read (`fresh`) to its outcome, where the
/// stream's answers were known in advance to be `upcoming`.
proof fn lemma_warmup_result(
    fresh: StreamAnswers,
    upcoming: StreamAnswers,
    cap: nat,
    r: Result<(), DataError>,
)
    requires
        agrees_with(fresh, upcoming),
        r is Ok ==> fresh.len() == cap && all_token_answers(fresh),
        match r {
            Err(e) => 1 <= fresh.len() <= cap && all_token_answers(fresh.drop_last())
                && warmup_error(fresh.last(), e),
            Ok(_) => true,
        },
    ensures
        warmup_result(upcoming, cap, r),
{
    let n = if upcoming.len() < cap {
        upcoming.len() as int
    } else {
        cap as int
    };
    match r {
        Ok(_) => {
            assert forall|i: int| 0 <= i < upcoming.take(n).len() implies is_token_answer(
                #[trigger] upcoming.take(n)[i],
            ) by {
                assert(fresh[i] == upcoming[i]);
            }
        },
        Err(e) => {
            let m = fresh.len() - 1;
            if m < upcoming.len() {
                assert(fresh[m] == upcoming[m]);
                assert forall|i: int| 0 <= i < upcoming.take(m).len() implies is_token_answer(
                    #[trigger] upcoming.take(m)[i],
                ) by {
                    assert(fresh[i] == upcoming[i]);
                    assert(fresh.drop_last()[i] == fresh[i]);
                }
                assert(warmup_error(upcoming[m], e));
            } else {
                assert forall|i: int| 0 <= i < upcoming.take(n).len() implies is_token_answer(
                    #[trigger] upcoming.take(n)[i],
                ) by {
                    assert(fresh[i] == upcoming[i]);
                    assert(fresh.drop_last()[i] == fresh[i]);
                }
            }
        },
    }
}

/// Filling a ring succeeds whenever the stream's next `cap` answers are known to be tokens.
pub proof fn lemma_tokens_fill_the_ring(
    upcoming: StreamAnswers,
    cap: nat,
    r: Result<(), DataError>,
)
    requires
        warmup_result(upcoming, cap, r),
        upcoming.len() >= cap,
        all_token_answers(upcoming.take(cap as int)),
    ensures
        r is Ok,
{
    if let Err(e) = r {
        if exists|k: int|
            0 <= k < cap && all_token_answers(upcoming.take(k)) && warmup_error(
                #[trigger] upcoming[k],
                e,
            ) {
            let k = choose|k: int|
                0 <= k < cap && all_token_answers(upcoming.take(k)) && warmup_error(
                    #[trigger] upcoming[k],
                    e,
                );
            assert(upcoming.take(cap as int)[k] == upcoming[k]);
        }
    }
}

/// A failed fill of a ring gives either an error the stream itself answered or the end of
/// the stream, never an error of its own making, wherever the stream's next `cap` answers
/// are known.
pub proof fn lemma_fill_error_comes_from_stream(
    upcoming: StreamAnswers,
    cap: nat,
    e: DataError,
)
    requires
        warmup_result(upcoming, cap, Err(e)),
        upcoming.len() >= cap,
    ensures
        ({
            ||| exists|k: int|
                0 <= k < cap && #[trigger] upcoming[k] == Some::<Result<u32, DataError>>(Err(e))
            ||| (exists|k: int| 0 <= k < cap && #[trigger] upcoming[k] is None) && (e matches DataError::Io(
                m,
            ) && m@ == "unexpected EOF during warmup"@)
        }),
{
    let k = choose|k: int|
        0 <= k < cap && all_token_answers(upcoming.take(k)) && warmup_error(
            #[trigger] upcoming[k],
            e,
        );
    assert(upcoming[k] is Some ==> upcoming[k] == Some::<Result<u32, DataError>>(Err(e)));
}

/// What a ring shuffler holds, seen as values.
pub struct RingModel {
    /// The number of tokens the ring holds.
    pub cap: nat,
    /// The length of each sampled sequence.
    pub sequence_length: nat,
    /// How many fresh tokens are read after each batch.
    pub advance: nat,
    /// The ring has been filled once.
    pub filled: bool,
    /// The stream has ended or the token budget is spent.
    pub exhausted: bool,
    /// The number of tokens after which no more are read.
    pub max_tokens: nat,
    /// Every token read into the ring so far, oldest first.
    pub read: Seq<u32>,
    /// Every answer the stream gave to a pull of this shuffler, oldest first.
    pub answers: Seq<Option<Result<u32, DataError>>>,
    /// What the stream had given before this shuffler was made.
    pub origin: Seq<Option<Result<u32, DataError>>>,
    /// Every random draw of a window start for a batch, oldest first, as `(max, start)`: the
    /// start was drawn from `0..=max`.
    pub draws: Seq<(usize, usize)>,
}

impl RingModel {
    /// The tokens in the ring, oldest first: the last `cap` tokens read.
    pub open spec fn window(self) -> Seq<u32> {
        self.read.subrange(self.read.len() - self.cap, self.read.len() as int)
    }

    /// The number of tokens consumed from the stream.
    pub open spec fn tokens_consumed(self) -> nat {
        self.read.len()
    }

    pub open spec fn valid(self) -> bool {
        &&& self.cap > self.sequence_length
        &&& self.advance >= 1
        &&& self.filled ==> self.read.len() >= self.cap
    }

    /// Same settings and same flags: only the tokens read may differ.
    pub open spec fn same_settings(self, other: RingModel) -> bool {
        &&& self.cap == other.cap
        &&& self.sequence_length == other.sequence_length
        &&& self.advance == other.advance
        &&& self.max_tokens == other.max_tokens
        &&& self.origin == other.origin
    }

    /// The tokens read are the token answers of the stream, in order.
    pub open spec fn tied(self) -> bool {
        self.read == tokens_in(self.answers)
    }
}

/// Keeps a circular buffer of `cap` tokens. At each batch it samples random contiguous
/// windows inside the ring, then advances the ring by `advance` fresh tokens from the stream.
pub struct RingShuffler<S: TokenSource> {
    ring: Vec<u32>,
    cap: usize,
    sequence_length: usize,
    head: usize,
    filled: bool,
    advance: usize,
    stream: S,
    exhausted: bool,
    tokens_consumed: usize,
    max_tokens: usize,
    read: Ghost<Seq<u32>>,
    answers: Ghost<Seq<Option<Result<u32, DataError>>>>,
    origin: Ghost<Seq<Option<Result<u32, DataError>>>>,
    draws: DrawLog,
}

/// The ring slot of the token read `i` tokens before the newest one, where the next
/// write goes to `head`.
spec fn slot_of(head: int, cap: int, i: int) -> int {
    if i < head {
        head - 1 - i
    } else {
        head + cap - 1 - i
    }
}

impl<S: TokenSource> View for RingShuffler<S> {
    type V = RingModel;

    closed spec fn view(&self) -> RingModel {
        RingModel {
            cap: self.cap as nat,
            sequence_length: self.sequence_length as nat,
            advance: self.advance as nat,
            filled: self.filled,
            exhausted: self.exhausted,
            max_tokens: self.max_tokens as nat,
            read: self.read@,
            answers: self.answers@,
            origin: self.origin@,
            draws: self.draws.draws(),
        }
    }
}

impl<S: TokenSource> RingShuffler<S> {
    /// The ring buffer holds, behind `head`, the most recent tokens read.
    pub closed spec fn inv(&self) -> bool {
        &&& self.ring@.len() == self.cap
        &&& self.head < self.cap
        &&& self.tokens_consumed == self.read@.len()
        &&& forall|i: int|
            0 <= i < self.cap && i < self.read@.len() ==> #[trigger] self.ring@[slot_of(
                self.head as int,
                self.cap as int,
                i,
            )] == self.read@[self.read@.len() - 1 - i]
    }

    /// The shuffler is well formed: its settings are valid and the ring holds the most
    /// recent tokens read.
    pub open spec fn wf(&self) -> bool {
        &&& self@.valid()
        &&& self.inv()
        &&& self@.tied()
        &&& self.source_given() == self@.origin + self@.answers
    }

    /// Every answer the stream has given, oldest first.
    pub closed spec fn source_given(&self) -> Seq<Option<Result<u32, DataError>>> {
        self.stream.given()
    }

    /// The answers the stream will give next, as far as they are known in advance.
    pub closed spec fn source_upcoming(&self) -> StreamAnswers {
        self.stream.upcoming()
    }

    /// A shuffler over `stream` with a ring of `cap` tokens that samples sequences of `t`
    /// tokens and reads `advance` (at least one) fresh tokens after each batch, up to
    /// `max_tokens` tokens in all.
    pub fn new(stream: S, cap: usize, t: usize, advance: usize, max_tokens: usize) -> (r: Self)
        requires
            cap > t,
        ensures
            r.wf(),
            r.source_upcoming() == stream.upcoming(),
            r@ == (RingModel {
                cap: cap as nat,
                sequence_length: t as nat,
                advance: if advance >= 1 {
                    advance as nat
                } else {
                    1
                },
                filled: false,
                exhausted: false,
                max_tokens: max_tokens as nat,
                read: Seq::empty(),
                answers: Seq::empty(),
                origin: stream.given(),
                draws: Seq::empty(),
            }),
    {
        let ghost origin = stream.given();
        let ring: Vec<u32> = vec![0; cap];
        RingShuffler {
            ring,
            cap,
            head: 0,
            filled: false,
            sequence_length: t,
            advance: if advance >= 1 {
                advance
            } else {
                1
            },
            stream,
            exhausted: false,
            tokens_consumed: 0,
            max_tokens,
            read: Ghost(Seq::empty()),
            answers: Ghost(Seq::empty()),
            origin: Ghost(origin),
            draws: DrawLog::new(),
        }
    }

    /// Writes `tok` over the oldest token of the ring.
    fn push(&mut self, tok: u32)
        requires
            old(self)@.valid(),
            old(self).inv(),
            old(self).tokens_consumed < usize::MAX,
        ensures
            final(self)@.valid(),
            final(self).inv(),
            final(self).source_given() == old(self).source_given(),
            final(self).source_upcoming() == old(self).source_upcoming(),
            final(self)@ == (RingModel { read: old(self)@.read.push(tok), ..old(self)@ }),
    {
        let ghost old_read = self.read@;
        let ghost old_head = self.head as int;
        let ghost cap = self.cap as int;
        let ghost old_ring = self.ring@;
        let h = self.head;
        self.ring.set(h, tok);
        self.head = if h + 1 == self.cap {
            0
        } else {
            h + 1
        };
        self.tokens_consumed = self.tokens_consumed + 1;
        self.read = Ghost(old_read.push(tok));
        assert forall|i: int|
            0 <= i < self.cap && i < self.read@.len() implies #[trigger] self.ring@[slot_of(
            self.head as int,
            self.cap as int,
            i,
        )] == self.read@[self.read@.len() - 1 - i] by {
            if i == 0 {
                assert(slot_of(self.head as int, cap, 0) == old_head);
            } else {
                assert(slot_of(self.head as int, cap, i) == slot_of(old_head, cap, i - 1));
                assert(slot_of(old_head, cap, i - 1) != old_head);
                assert(old_ring[slot_of(old_head, cap, i - 1)] == old_read[old_read.len() - 1 - (i
                    - 1)]);
            }
        }
    }

    /// The token `logical` places (taken modulo the ring size) after the oldest one.
    fn ring_get(&self, logical: usize) -> (r: u32)
        requires
            self.wf(),
            self.read@.len() >= self.cap,
        ensures
            r == self@.window()[(logical % self.cap) as int],
    {
        let off = logical % self.cap;
        let idx = if off < self.cap - self.head {
            self.head + off
        } else {
            off - (self.cap - self.head)
        };
        let ghost i = self.cap - 1 - off;
        assert(slot_of(self.head as int, self.cap as int, i) == idx);
        assert(self.ring@[slot_of(self.head as int, self.cap as int, i)] == self.read@[self.read@.len()
            - 1 - i]);
        self.ring[idx]
    }

    /// Maps what the stream gave during warmup to a token or an error: the end of the
    /// stream is an error here.
    pub fn token_or_eof(pulled: Option<Result<u32, DataError>>) -> (r: Result<u32, DataError>)
        ensures
            pulled matches Some(Ok(t)) ==> r == Ok::<u32, DataError>(t),
            pulled matches Some(Err(e)) ==> r == Err::<u32, DataError>(e),
            pulled is None ==> (r matches Err(DataError::Io(m)) && m@
                == "unexpected EOF during warmup"@),
    {
        match pulled {
            Some(Ok(t)) => Ok(t),
            Some(Err(e)) => Err(e),
            None => Err(DataError::Io("unexpected EOF during warmup".to_owned())),
        }
    }

    /// Fills the ring with `cap` tokens, in order.
    pub fn warmup(&mut self) -> (r: Result<(), DataError>)
        requires
            old(self).wf(),
            old(self)@.tokens_consumed() + old(self)@.cap <= usize::MAX,
        ensures
            final(self).wf(),
            final(self)@.same_settings(old(self)@),
            final(self)@.exhausted == old(self)@.exhausted,
            final(self)@.read.len() <= old(self)@.read.len() + old(self)@.cap,
            final(self)@.read.subrange(0, old(self)@.read.len() as int) == old(self)@.read,
            r is Ok ==> final(self)@.filled && final(self)@.read.len() == old(self)@.read.len()
                + old(self)@.cap,
            r is Err ==> final(self)@.filled == old(self)@.filled && final(self)@.read.len()
                < old(self)@.read.len() + old(self)@.cap,
            final(self)@.answers.subrange(0, old(self)@.answers.len() as int) == old(self)@.answers,
            ({
                let fresh = final(self)@.answers.subrange(
                    old(self)@.answers.len() as int,
                    final(self)@.answers.len() as int,
                );
                agrees_with(fresh, old(self).source_upcoming())
            }),
            ({
                let fresh = final(self)@.answers.subrange(
                    old(self)@.answers.len() as int,
                    final(self)@.answers.len() as int,
                );
                &&& final(self)@.answers.len() >= old(self)@.answers.len()
                &&& r is Ok ==> fresh.len() == old(self)@.cap && all_token_answers(fresh)
                    && final(self)@.read == old(self)@.read + answered_tokens(fresh)
                &&& match r {
                    Err(e) => 1 <= fresh.len() <= old(self)@.cap && all_token_answers(
                        fresh.drop_last(),
                    ) && final(self)@.read == old(self)@.read + answered_tokens(fresh.drop_last())
                        && warmup_error(fresh.last(), e),
                    Ok(_) => true,
                }
            }),
    {
        let ghost start = self@;
        let ghost u0 = self.source_upcoming();
        let mut k: usize = 0;
        while k < self.cap
            invariant
                start == old(self)@,
                u0 == old(self).source_upcoming(),
                agrees_with(
                    self@.answers.subrange(start.answers.len() as int, self@.answers.len() as int),
                    u0,
                ),
                k <= u0.len() ==> self.source_upcoming() == u0.skip(k as int),
                self.wf(),
                self@.same_settings(start),
                self@.exhausted == start.exhausted,
                self@.filled == start.filled,
                k <= self.cap,
                start.read.len() + start.cap <= usize::MAX,
                self@.read.len() == start.read.len() + k,
                self@.read.subrange(0, start.read.len() as int) == start.read,
                self@.answers.len() == start.answers.len() + k,
                self@.answers.subrange(0, start.answers.len() as int) == start.answers,
                all_token_answers(
                    self@.answers.subrange(start.answers.len() as int, self@.answers.len() as int),
                ),
                self@.read == start.read + answered_tokens(
                    self@.answers.subrange(start.answers.len() as int, self@.answers.len() as int),
                ),
            decreases self.cap - k,
        {
            let ghost up_before = self.source_upcoming();
            let pulled = self.stream.pull();
            let ghost before_answers = self@.answers;
            self.answers = Ghost(self.answers@.push(pulled));
            proof {
                let n = start.answers.len() as int;
                let fresh0 = before_answers.subrange(n, before_answers.len() as int);
                let fresh1 = self@.answers.subrange(n, self@.answers.len() as int);
                assert(fresh1 =~= fresh0.push(pulled));
                if k + 1 <= u0.len() {
                    assert(up_before == u0.skip(k as int));
                    assert(pulled == u0[k as int]);
                    assert(self.source_upcoming() =~= u0.skip(k + 1));
                }
                assert forall|i: int| 0 <= i < fresh1.len() && i < u0.len() implies #[trigger] fresh1[i]
                    == u0[i] by {
                    if i < fresh0.len() {
                        assert(fresh1[i] == fresh0[i]);
                    }
                }
                lemma_tokens_in_push(before_answers, pulled);
                assert(self@.origin + self@.answers =~= (self@.origin + before_answers).push(pulled));
                let n = start.answers.len() as int;
                assert(self@.answers.subrange(0, n) =~= before_answers.subrange(0, n));
                assert(self@.answers.subrange(n, self@.answers.len() as int).drop_last()
                    =~= before_answers.subrange(n, before_answers.len() as int));
            }
            let tok = match Self::token_or_eof(pulled) {
                Ok(t) => t,
                Err(e) => {
                    return Err(e);
                },
            };
            let ghost before = self@.read;
            self.push(tok);
            assert(self@.read.subrange(0, start.read.len() as int) =~= before.subrange(
                0,
                start.read.len() as int,
            ));
            proof {
                let n = start.answers.len() as int;
                let fresh = self@.answers.subrange(n, self@.answers.len() as int);
                assert(pulled matches Some(Ok(_)));
                assert forall|i: int| 0 <= i < fresh.len() implies is_token_answer(
                    #[trigger] fresh[i],
                ) by {
                    if i < fresh.len() - 1 {
                        assert(fresh[i] == fresh.drop_last()[i]);
                    }
                }
                assert(answered_tokens(fresh) =~= answered_tokens(fresh.drop_last()).push(tok));
                assert(self@.read =~= start.read + answered_tokens(fresh));
            }
            k = k + 1;
        }
        self.filled = true;
        Ok(())
    }

    /// The batch whose row `b` is the window of the ring at `starts[b]`: `t` input tokens and
    /// the `t` tokens one place later as targets.
    pub fn batch_from_starts(&self, starts: &Vec<usize>) -> (b: Batch)
        requires
            self.wf(),
            self@.filled,
            forall|i: int|
                0 <= i < starts@.len() ==> #[trigger] starts@[i] + self@.sequence_length + 1
                    <= self@.cap,
        ensures
            b@.0 == window_inputs(
                self@.window(),
                starts@.map_values(|s: usize| s as int),
                self@.sequence_length,
            ),
            b@.1 == window_targets(
                self@.window(),
                starts@.map_values(|s: usize| s as int),
                self@.sequence_length,
            ),
    {
        let ghost w = self@.window();
        let ghost st = starts@.map_values(|s: usize| s as int);
        let ghost t = self.sequence_length as int;
        let mut x: Vec<Vec<u32>> = Vec::new();
        let mut y: Vec<Vec<u32>> = Vec::new();
        let mut bi: usize = 0;
        while bi < starts.len()
            invariant
                self.wf(),
                self@.filled,
                w == self@.window(),
                t == self@.sequence_length,
                st == starts@.map_values(|s: usize| s as int),
                forall|i: int|
                    0 <= i < starts@.len() ==> #[trigger] starts@[i] + self@.sequence_length + 1
                        <= self@.cap,
                bi <= starts@.len(),
                x@.len() == bi,
                y@.len() == bi,
                forall|i: int| 0 <= i < bi ==> (#[trigger] x@[i])@ == w.subrange(st[i], st[i] + t),
                forall|i: int|
                    0 <= i < bi ==> (#[trigger] y@[i])@ == w.subrange(st[i] + 1, st[i] + t + 1),
            decreases starts@.len() - bi,
        {
            let start = starts[bi];
            let mut xr: Vec<u32> = Vec::new();
            let mut yr: Vec<u32> = Vec::new();
            let mut k: usize = 0;
            while k < self.sequence_length
                invariant
                    self.wf(),
                    self@.filled,
                    w == self@.window(),
                    start + self@.sequence_length + 1 <= self@.cap,
                    k <= self.sequence_length,
                    xr@ == w.subrange(start as int, start + k),
                    yr@ == w.subrange(start + 1, start + k + 1),
                decreases self.sequence_length - k,
            {
                let a = self.ring_get(start + k);
                let c = self.ring_get(start + k + 1);
                proof {
                    lemma_small_mod((start + k) as nat, self.cap as nat);
                    lemma_small_mod((start + k + 1) as nat, self.cap as nat);
                }
                xr.push(a);
                yr.push(c);
                k = k + 1;
                assert(xr@ =~= w.subrange(start as int, start + k));
                assert(yr@ =~= w.subrange(start + 1, start + k + 1));
            }
            x.push(xr);
            y.push(yr);
            bi = bi + 1;
        }
        let b = Batch { x, y };
        assert(b@.0 =~= window_inputs(w, st, t as nat));
        assert(b@.1 =~= window_targets(w, st, t as nat));
        b
    }

    /// Takes the answer the stream has just given while the ring advances: a token goes into
    /// the ring
    /// (`Ok(true)`: reading goes on), the end of the stream marks the ring exhausted
    /// (`Ok(false)`), and the stream's error is handed back.
    fn absorb_answer(&mut self, answer: Option<Result<u32, DataError>>) -> (r: Result<
        bool,
        DataError,
    >)
        requires
            old(self)@.valid(),
            old(self).inv(),
            old(self)@.tied(),
            old(self).source_given() == old(self)@.origin + old(self)@.answers.push(answer),
            old(self)@.tokens_consumed() < usize::MAX,
        ensures
            final(self).wf(),
            match answer {
                Some(Ok(t)) => final(self)@ == (RingModel {
                    read: old(self)@.read.push(t),
                    answers: old(self)@.answers.push(answer),
                    ..old(self)@
                }) && r == Ok::<bool, DataError>(true),
                Some(Err(e)) => final(self)@ == (RingModel {
                    answers: old(self)@.answers.push(answer),
                    ..old(self)@
                }) && r == Err::<bool, DataError>(e),
                None => final(self)@ == (RingModel {
                    exhausted: true,
                    answers: old(self)@.answers.push(answer),
                    ..old(self)@
                }) && r == Ok::<bool, DataError>(false),
            },
    {
        let ghost before_answers = self@.answers;
        self.answers = Ghost(self.answers@.push(answer));
        proof {
            lemma_tokens_in_push(before_answers, answer);
            assert(self@.origin + self@.answers =~= self@.origin + before_answers.push(answer));
        }
        match answer {
            Some(Ok(tok)) => {
                self.push(tok);
                Ok(true)
            },
            Some(Err(e)) => Err(e),
            None => {
                self.exhausted = true;
                Ok(false)
            },
        }
    }

    /// The next batch of `batch_size` sequences drawn at random places of the ring, after
    /// which the ring advances by up to `advance` fresh tokens. `Ok(None)` means that the
    /// stream has ended or the token budget is spent.
    pub fn next_batch(&mut self, batch_size: usize, rng: &mut StdRng) -> (r: Result<
        Option<Batch>,
        DataError,
    >)
        requires
            old(self).wf(),
        ensures
            final(self).wf(),
            next_batch_outcome(old(self)@, final(self)@, batch_size as nat, r),
    {
        if !self.filled {
            return Err(DataError::Io("call warmup() before next_batch".to_owned()));
        }
        if self.exhausted || self.tokens_consumed >= self.max_tokens {
            return Ok(None);
        }
        let ghost start = self@;
        let max_start = self.cap - (self.sequence_length + 1);
        let mut starts: Vec<usize> = Vec::new();
        let mut bi: usize = 0;
        while bi < batch_size
            invariant
                bi <= batch_size,
                starts@.len() == bi,
                self.wf(),
                self@ == (RingModel {
                    draws: start.draws + starts@.map_values(|s: usize| (max_start, s)),
                    ..start
                }),
                start.filled,
                max_start + self.sequence_length + 1 == self.cap,
                forall|i: int|
                    0 <= i < starts@.len() ==> #[trigger] starts@[i] + self@.sequence_length + 1
                        <= self@.cap,
            decreases batch_size - bi,
        {
            let s = self.draws.draw(rng, max_start);
            starts.push(s);
            bi = bi + 1;
            assert(self@.draws =~= start.draws + starts@.map_values(|s: usize| (max_start, s)));
        }
        let ghost drawn = self@.draws;
        proof {
            assert(drawn.subrange(start.draws.len() as int, drawn.len() as int)
                =~= starts@.map_values(|s: usize| (max_start, s)));
            assert(drawn.subrange(0, start.draws.len() as int) =~= start.draws);
            assert(self@.window() == start.window());
            let st = starts@.map_values(|s: usize| s as int);
            assert(drawn.subrange(start.draws.len() as int, drawn.len() as int).map_values(
                |d: (usize, usize)| d.1 as int,
            ) =~= st);
            assert(starts_fit(st, start.cap, start.sequence_length));
            assert forall|j: int| start.draws.len() <= j < drawn.len() implies (
            #[trigger] drawn[j]).0 + start.sequence_length + 1 == start.cap by {
                assert(drawn[j] == drawn.subrange(start.draws.len() as int, drawn.len() as int)[j
                    - start.draws.len()]);
            }
        }
        let batch = self.batch_from_starts(&starts);
        proof {
            let st = starts@.map_values(|s: usize| s as int);
            assert(starts_fit(st, start.window().len(), start.sequence_length));
            lemma_window_batch_targets(batch@, start.window(), batch_size as nat, start.sequence_length);
        }
        let mut n: usize = 0;
        let mut done = false;
        let ghost mut eof = false;
        while n < self.advance && !done
            invariant
                start == old(self)@,
                start.filled,
                !start.exhausted,
                start.tokens_consumed() < start.max_tokens,
                self@.draws == drawn,
                drawn.len() == start.draws.len() + batch_size,
                drawn.subrange(0, start.draws.len() as int) == start.draws,
                starts_fit(
                    drawn.subrange(start.draws.len() as int, drawn.len() as int).map_values(
                        |d: (usize, usize)| d.1 as int,
                    ),
                    start.cap,
                    start.sequence_length,
                ),
                forall|j: int|
                    start.draws.len() <= j < drawn.len() ==> (#[trigger] drawn[j]).0
                        + start.sequence_length + 1 == start.cap,
                self.wf(),
                self@.same_settings(start),
                self@.filled,
                !done ==> !self@.exhausted,
                done ==> self@.exhausted,
                done ==> n < self@.advance,
                eof ==> done,
                n <= self@.advance,
                self@.read.len() == start.read.len() + n,
                self@.read.subrange(0, start.read.len() as int) == start.read,
                self@.tokens_consumed() <= start.max_tokens,
                self@.answers.len() >= start.answers.len(),
                self@.answers.subrange(0, start.answers.len() as int) == start.answers,
                ({
                    let fresh = self@.answers.subrange(
                        start.answers.len() as int,
                        self@.answers.len() as int,
                    );
                    if eof {
                        &&& fresh.len() == n + 1
                        &&& fresh.last() is None
                        &&& self@.tokens_consumed() < start.max_tokens
                        &&& all_token_answers(fresh.drop_last())
                        &&& self@.read == start.read + answered_tokens(fresh.drop_last())
                    } else {
                        &&& fresh.len() == n
                        &&& all_token_answers(fresh)
                        &&& self@.read == start.read + answered_tokens(fresh)
                        &&& done ==> self@.tokens_consumed() >= start.max_tokens
                    }
                }),
            decreases (self.advance - n) as int + if done {
                0int
            } else {
                1int
            },
        {
            if self.tokens_consumed >= self.max_tokens {
                self.exhausted = true;
                done = true;
            } else {
                let pulled = self.stream.pull();
                let ghost before = self@;
                let ghost k0 = start.answers.len() as int;
                let ghost fresh0 = before.answers.subrange(k0, before.answers.len() as int);
                let step = self.absorb_answer(pulled);
                proof {
                    let fresh1 = self@.answers.subrange(k0, self@.answers.len() as int);
                    assert(fresh1 =~= fresh0.push(pulled));
                    assert(self@.answers.subrange(0, k0) =~= before.answers.subrange(0, k0));
                    assert(fresh1.drop_last() =~= fresh0);
                    if pulled is Some && pulled.unwrap() is Ok {
                        lemma_push_token_answer(fresh0, pulled);
                        assert(self@.read =~= start.read + answered_tokens(fresh1));
                        assert(self@.read.subrange(0, start.read.len() as int) =~= start.read);
                    }
                }
                match step {
                    Ok(true) => {
                        n = n + 1;
                    },
                    Ok(false) => {
                        proof {
                            eof = true;
                        }
                        done = true;
                    },
                    Err(e) => {
                        return Err(e);
                    },
                }
            }
        }
        Ok(Some(batch))
    }
}

} // verus!

verus! {

/// The ring holds this many batches' worth of fresh tokens.
pub const RING_BATCHES: usize = 16;

/// The number of batches in a pass over `total_tokens` tokens: after the ring of
/// `buffer_size` tokens is filled, each batch reads `advance` fresh tokens.
pub open spec fn spec_total_batches(total_tokens: nat, advance: nat, buffer_size: nat) -> nat {
    if total_tokens > buffer_size {
        ((total_tokens - buffer_size) as nat) / advance
    } else {
        0
    }
}

/// The number of batches in a pass over `total_tokens` tokens with a ring of `buffer_size`
/// tokens that advances by `advance` tokens per batch.
pub fn count_total_batches(total_tokens: usize, advance: usize, buffer_size: usize) -> (n: usize)
    requires
        advance > 0,
    ensures
        n == spec_total_batches(total_tokens as nat, advance as nat, buffer_size as nat),
{
    let remaining_after_warmup = total_tokens.saturating_sub(buffer_size);
    remaining_after_warmup / advance
}

/// The sum of a sequence of file lengths.
pub open spec fn sum_lengths(lengths: Seq<u64>) -> nat
    decreases lengths.len(),
{
    if lengths.len() == 0 {
        0
    } else {
        sum_lengths(lengths.drop_last()) + lengths.last() as nat
    }
}

proof fn lemma_sum_prefix(lengths: Seq<u64>, i: int)
    requires
        0 <= i <= lengths.len(),
    ensures
        sum_lengths(lengths.subrange(0, i)) <= sum_lengths(lengths),
    decreases lengths.len() - i,
{
    if i < lengths.len() {
        lemma_sum_prefix(lengths, i + 1);
        assert(lengths.subrange(0, i + 1).drop_last() =~= lengths.subrange(0, i));
    } else {
        assert(lengths.subrange(0, i) =~= lengths);
    }
}

/// The number of tokens in data files of the given byte lengths: one token per byte.
pub fn count_total_tokens(file_lengths: &[u64]) -> (total: usize)
    requires
        sum_lengths(file_lengths@) <= usize::MAX,
    ensures
        total == sum_lengths(file_lengths@),
{
    let mut total_tokens: usize = 0;
    let mut i: usize = 0;
    while i < file_lengths.len()
        invariant
            i <= file_lengths@.len(),
            sum_lengths(file_lengths@) <= usize::MAX,
            total_tokens == sum_lengths(file_lengths@.subrange(0, i as int)),
        decreases file_lengths@.len() - i,
    {
        proof {
            lemma_sum_prefix(file_lengths@, i + 1);
            assert(file_lengths@.subrange(0, i + 1).drop_last() =~= file_lengths@.subrange(0, i as int));
        }
        total_tokens = total_tokens + file_lengths[i] as usize;
        i = i + 1;
    }
    assert(file_lengths@.subrange(0, i as int) =~= file_lengths@);
    total_tokens
}

/// What a data loader holds, seen as values.
pub struct LoaderModel {
    /// The number of batches in one pass over the data.
    pub total_batches: nat,
    /// The number of sequences per batch.
    pub batch_size: nat,
    /// The length of each sequence.
    pub sequence_length: nat,
    /// The ring of tokens that batches are drawn from.
    pub ring: RingModel,
}

/// Draws shuffled batches of training sequences from a token stream through a ring buffer.
pub struct DataLoader<S: TokenSource> {
    shuffler: RingShuffler<S>,
    total_batches: usize,
    batch_size: usize,
    buffer_size: usize,
    sequence_length: usize,
    advance: usize,
    warmup_answers: Ghost<Seq<Option<Result<u32, DataError>>>>,
}

impl<S: TokenSource> View for DataLoader<S> {
    type V = LoaderModel;

    closed spec fn view(&self) -> LoaderModel {
        LoaderModel {
            total_batches: self.total_batches as nat,
            batch_size: self.batch_size as nat,
            sequence_length: self.sequence_length as nat,
            ring: self.shuffler@,
        }
    }
}

impl LoaderModel {
    /// The ring's settings follow from the batch shape: it advances by one batch of tokens
    /// and holds `RING_BATCHES` batches' worth.
    pub open spec fn valid(self) -> bool {
        &&& self.batch_size > 0
        &&& self.sequence_length > 0
        &&& self.ring.advance == self.sequence_length * self.batch_size
        &&& self.ring.cap == RING_BATCHES * self.ring.advance
        &&& self.ring.sequence_length == self.sequence_length
    }
}

impl<S: TokenSource> DataLoader<S> {
    /// The loader is well formed.
    pub open spec fn wf(&self) -> bool {
        self@.valid() && self.inv()
    }

    /// The stream's answers during the most recent warmup of a ring, whether it succeeded or not.
    pub closed spec fn last_warmup_answers(&self) -> Seq<Option<Result<u32, DataError>>> {
        self.warmup_answers@
    }

    /// The loader's fields agree with its ring.
    pub closed spec fn inv(&self) -> bool {
        &&& self.shuffler.wf()
        &&& self.advance == self.shuffler@.advance
        &&& self.buffer_size == self.shuffler@.cap
    }

    /// A loader of batches of `batch_size` sequences of `sequence_length` tokens from
    /// `stream`, which holds `total_tokens` tokens. The ring is filled before it returns;
    /// an error means that the stream failed or ended before that (see `warmup_result`), and
    /// nothing else fails.
    pub fn new(stream: S, total_tokens: usize, sequence_length: usize, batch_size: usize) -> (r:
        Result<Self, DataError>)
        requires
            sequence_length > 0,
            batch_size > 0,
            RING_BATCHES * sequence_length * batch_size <= usize::MAX,
        ensures
            warmup_result(
                stream.upcoming(),
                (RING_BATCHES * sequence_length * batch_size) as nat,
                outcome_of(r),
            ),
            stream.upcoming().len() >= RING_BATCHES * sequence_length * batch_size
                && all_token_answers(
                stream.upcoming().take((RING_BATCHES * sequence_length * batch_size) as int),
            ) ==> r is Ok,
            match r {
                Ok(loader) => {
                    &&& loader.wf()
                    &&& loader@.batch_size == batch_size
                    &&& loader@.sequence_length == sequence_length
                    &&& loader@.total_batches == spec_total_batches(
                        total_tokens as nat,
                        (sequence_length * batch_size) as nat,
                        (RING_BATCHES * sequence_length * batch_size) as nat,
                    )
                    &&& loader@.ring.filled
                    &&& !loader@.ring.exhausted
                    &&& loader@.ring.read.len() == loader@.ring.cap
                    &&& loader@.ring.max_tokens == total_tokens
                    &&& loader@.ring.origin == stream.given()
                    &&& loader@.ring.answers.len() == loader@.ring.cap
                    &&& all_token_answers(loader@.ring.answers)
                    &&& loader@.ring.read == answered_tokens(loader@.ring.answers)
                    &&& loader.last_warmup_answers() == loader@.ring.answers
                    &&& agrees_with(loader@.ring.answers, stream.upcoming())
                },
                Err(_) => true,
            },
    {
        proof {
            assert(sequence_length * batch_size >= sequence_length) by (nonlinear_arith)
                requires
                    batch_size >= 1,
                    sequence_length > 0,
            ;
            assert(RING_BATCHES * sequence_length * batch_size == RING_BATCHES * (sequence_length
                * batch_size)) by (nonlinear_arith);
        }
        let advance = sequence_length * batch_size;
        let buffer_size = RING_BATCHES * advance;
        let total_batches = count_total_batches(total_tokens, advance, buffer_size);
        let ghost upcoming = stream.upcoming();
        let mut shuffler = RingShuffler::new(
            stream,
            buffer_size,
            sequence_length,
            advance,
            total_tokens,
        );
        let filled = shuffler.warmup();
        assert(shuffler@.answers.subrange(0, shuffler@.answers.len() as int) =~= shuffler@.answers);
        proof {
            lemma_warmup_result(shuffler@.answers, upcoming, buffer_size as nat, filled);
            if upcoming.len() >= buffer_size && all_token_answers(
                upcoming.take(buffer_size as int),
            ) {
                lemma_tokens_fill_the_ring(upcoming, buffer_size as nat, filled);
            }
        }
        match filled {
            Ok(()) => {},
            Err(e) => {
                return Err(e);
            },
        }
        assert(Seq::<u32>::empty() + answered_tokens(shuffler@.answers) =~= answered_tokens(
            shuffler@.answers,
        ));
        Ok(DataLoader {
            shuffler,
            total_batches,
            batch_size,
            buffer_size,
            sequence_length,
            advance,
            warmup_answers: Ghost(shuffler@.answers),
        })
    }

    /// The next batch, drawn at places that `rng` picks: see `next_batch_outcome`. `Ok(None)`
    /// means that the stream has ended.
    pub fn next_batch(&mut self, rng: &mut StdRng) -> (r: Result<Option<Batch>, DataError>)
        requires
            old(self).wf(),
        ensures
            final(self).wf(),
            final(self)@.total_batches == old(self)@.total_batches,
            final(self)@.batch_size == old(self)@.batch_size,
            final(self)@.sequence_length == old(self)@.sequence_length,
            next_batch_outcome(old(self)@.ring, final(self)@.ring, old(self)@.batch_size, r),
    {
        self.shuffler.next_batch(self.batch_size, rng)
    }

    /// The number of batches in one pass over the data.
    pub fn total_batches(&self) -> (n: usize)
        ensures
            n == self@.total_batches,
    {
        self.total_batches
    }

    /// Starts a new pass over the data from `stream`, which holds `total_tokens` tokens: a
    /// fresh ring is filled from it, and only a failure or the end of that stream gives an
    /// error (see `warmup_result`). On an error the loader is left as it was.
    pub fn reset(&mut self, stream: S, total_tokens: usize) -> (r: Result<(), DataError>)
        requires
            old(self).wf(),
        ensures
            final(self).wf(),
            warmup_result(stream.upcoming(), old(self)@.ring.cap, r),
            stream.upcoming().len() >= old(self)@.ring.cap && all_token_answers(
                stream.upcoming().take(old(self)@.ring.cap as int),
            ) ==> r is Ok,
            agrees_with(final(self).last_warmup_answers(), stream.upcoming()),
            r is Err ==> final(self)@ == old(self)@,
            r is Ok ==> {
                &&& final(self)@.total_batches == old(self)@.total_batches
                &&& final(self)@.batch_size == old(self)@.batch_size
                &&& final(self)@.sequence_length == old(self)@.sequence_length
                &&& final(self)@.ring.same_settings(
                    RingModel {
                        max_tokens: total_tokens as nat,
                        origin: stream.given(),
                        ..old(self)@.ring
                    },
                )
                &&& final(self)@.ring.filled
                &&& !final(self)@.ring.exhausted
                &&& final(self)@.ring.read.len() == final(self)@.ring.cap
                &&& final(self)@.ring.answers.len() == final(self)@.ring.cap
                &&& all_token_answers(final(self)@.ring.answers)
                &&& final(self)@.ring.read == answered_tokens(final(self)@.ring.answers)
                &&& final(self).last_warmup_answers() == final(self)@.ring.answers
            },
            match r {
                Err(e) => {
                    let a = final(self).last_warmup_answers();
                    &&& 1 <= a.len() <= old(self)@.ring.cap
                    &&& all_token_answers(a.drop_last())
                    &&& warmup_error(a.last(), e)
                },
                Ok(_) => true,
            },
    {
        let ghost upcoming = stream.upcoming();
        let mut shuffler = RingShuffler::new(
            stream,
            self.buffer_size,
            self.sequence_length,
            self.advance,
            total_tokens,
        );
        let r = shuffler.warmup();
        proof {
            assert(shuffler@.answers.subrange(0, shuffler@.answers.len() as int)
                =~= shuffler@.answers);
            lemma_warmup_result(shuffler@.answers, upcoming, self.buffer_size as nat, r);
            if upcoming.len() >= self.buffer_size && all_token_answers(
                upcoming.take(self.buffer_size as int),
            ) {
                lemma_tokens_fill_the_ring(upcoming, self.buffer_size as nat, r);
            }
            assert(shuffler@.answers.subrange(0, shuffler@.answers.len() as int)
                =~= shuffler@.answers);
            assert(Seq::<u32>::empty() + answered_tokens(shuffler@.answers) =~= answered_tokens(
                shuffler@.answers,
            ));
        }
        self.warmup_answers = Ghost(shuffler@.answers);
        match r {
            Ok(()) => {},
            Err(e) => {
                return Err(e);
            },
        }
        self.shuffler = shuffler;
        Ok(())
    }
}

} // verus!
