//! Questions of a server that the user answers while a connection is set up.

#![verifier::loop_isolation(false)]

use crate::error::{self, AppError, ErrorView};
use crate::keyed::KeyedList;
use crate::models::{Duplicate, duplicate_list};
use crate::outside::{self, new_id};
use crate::text::{clone_texts, same};
use vstd::prelude::*;

verus! {

/// An answer to one question.
#[derive(Debug)]
pub struct AuthenticationPromptAnswer {
    pub id: String,
    pub value: String,
}

/// What a [`AuthenticationPromptAnswer`] says.
#[verifier::ext_equal]
pub struct AuthenticationPromptAnswerView {
    pub id: Seq<char>,
    pub value: Seq<char>,
}

impl View for AuthenticationPromptAnswer {
    type V = AuthenticationPromptAnswerView;

    open spec fn view(&self) -> AuthenticationPromptAnswerView {
        AuthenticationPromptAnswerView {
            id: self.id@,
            value: self.value@,
        }
    }
}

impl DeepView for AuthenticationPromptAnswer {
    type V = AuthenticationPromptAnswerView;

    open spec fn deep_view(&self) -> AuthenticationPromptAnswerView {
        self@
    }
}

impl Duplicate for AuthenticationPromptAnswer {
    fn duplicate(&self) -> (r: Self) {
        AuthenticationPromptAnswer {
            id: self.id.clone(),
            value: self.value.clone(),
        }
    }
}

impl Clone for AuthenticationPromptAnswer {
    fn clone(&self) -> (r: Self)
        ensures
            r@ == self@,
    {
        self.duplicate()
    }
}

/// The answers to the questions of a prompt.
#[derive(Debug)]
pub struct AuthenticationPromptResponse {
    pub operation_id: String,
    pub prompt_id: String,
    pub answers: Vec<AuthenticationPromptAnswer>,
}

/// What a [`AuthenticationPromptResponse`] says.
#[verifier::ext_equal]
pub struct AuthenticationPromptResponseView {
    pub operation_id: Seq<char>,
    pub prompt_id: Seq<char>,
    pub answers: Seq<AuthenticationPromptAnswerView>,
}

impl View for AuthenticationPromptResponse {
    type V = AuthenticationPromptResponseView;

    open spec fn view(&self) -> AuthenticationPromptResponseView {
        AuthenticationPromptResponseView {
            operation_id: self.operation_id@,
            prompt_id: self.prompt_id@,
            answers: self.answers.deep_view(),
        }
    }
}

impl DeepView for AuthenticationPromptResponse {
    type V = AuthenticationPromptResponseView;

    open spec fn deep_view(&self) -> AuthenticationPromptResponseView {
        self@
    }
}

impl Duplicate for AuthenticationPromptResponse {
    fn duplicate(&self) -> (r: Self) {
        AuthenticationPromptResponse {
            operation_id: self.operation_id.clone(),
            prompt_id: self.prompt_id.clone(),
            answers: duplicate_list(&self.answers),
        }
    }
}

impl Clone for AuthenticationPromptResponse {
    fn clone(&self) -> (r: Self)
        ensures
            r@ == self@,
    {
        self.duplicate()
    }
}

/// A prompt that waits for its answers: the operation that it belongs to, and the
/// ids of its questions in their order.
#[derive(Debug)]
pub struct PendingAuthentication {
    pub operation_id: String,
    pub answer_ids: Vec<String>,
}

/// What a [`PendingAuthentication`] says.
#[verifier::ext_equal]
pub struct PendingAuthenticationView {
    pub operation_id: Seq<char>,
    pub answer_ids: Seq<Seq<char>>,
}

impl View for PendingAuthentication {
    type V = PendingAuthenticationView;

    open spec fn view(&self) -> PendingAuthenticationView {
        PendingAuthenticationView {
            operation_id: self.operation_id@,
            answer_ids: self.answer_ids.deep_view(),
        }
    }
}

impl DeepView for PendingAuthentication {
    type V = PendingAuthenticationView;

    open spec fn deep_view(&self) -> PendingAuthenticationView {
        self@
    }
}

impl Duplicate for PendingAuthentication {
    fn duplicate(&self) -> (r: Self) {
        PendingAuthentication {
            operation_id: self.operation_id.clone(),
            answer_ids: clone_texts(&self.answer_ids),
        }
    }
}

impl Clone for PendingAuthentication {
    fn clone(&self) -> (r: Self)
        ensures
            r@ == self@,
    {
        self.duplicate()
    }
}

/// The error for answers that do not belong to a waiting prompt.
pub open spec fn stale_prompt_error() -> ErrorView {
    error::ssh_error(
        "AUTH-PROMPT-STALE"@,
        "认证请求已失效，请重新连接"@,
        "authentication prompt is missing, expired, or does not match the operation"@,
        true,
    )
}

/// The error for answers that do not belong to a waiting prompt.
pub fn stale_prompt() -> (r: AppError)
    ensures
        r@ == stale_prompt_error(),
{
    AppError::ssh(
        "AUTH-PROMPT-STALE",
        "认证请求已失效，请重新连接",
        "authentication prompt is missing, expired, or does not match the operation",
        true,
    )
}

/// The error for a broker that cannot be used any more.
pub open spec fn broker_unavailable_error() -> ErrorView {
    error::ssh_error(
        "AUTH-BROKER-UNAVAILABLE"@,
        "认证服务暂时不可用"@,
        "authentication broker lock was poisoned"@,
        true,
    )
}

/// The error for a broker that cannot be used any more.
pub fn broker_unavailable() -> (r: AppError)
    ensures
        r@ == broker_unavailable_error(),
{
    AppError::ssh(
        "AUTH-BROKER-UNAVAILABLE",
        "认证服务暂时不可用",
        "authentication broker lock was poisoned",
        true,
    )
}

/// Whether the answers are those that are expected, in their order.
pub open spec fn answers_fit(
    expected: Seq<Seq<char>>,
    answers: Seq<AuthenticationPromptAnswerView>,
) -> bool {
    &&& expected.len() == answers.len()
    &&& forall|i: int| 0 <= i < expected.len() ==> expected[i] == (#[trigger] answers[i]).id
}

/// Whether the answers are those that are expected, in their order.
pub fn answers_match(expected: &Vec<String>, answers: &Vec<AuthenticationPromptAnswer>) -> (r: bool)
    ensures
        r == answers_fit(expected.deep_view(), answers.deep_view()),
{
    let ghost wanted = expected.deep_view();
    let ghost given = answers.deep_view();
    if expected.len() != answers.len() {
        return false;
    }
    let mut i: usize = 0;
    while i < expected.len()
        invariant
            i <= wanted.len(),
            wanted.len() == given.len(),
            forall|j: int| 0 <= j < i ==> wanted[j] == (#[trigger] given[j]).id,
        decreases wanted.len() - i,
    {
        assert(wanted[i as int] == expected@[i as int]@);
        assert(given[i as int] == answers@[i as int]@);
        if !same(expected[i].as_str(), answers[i].id.as_str()) {
            return false;
        }
        i = i + 1;
    }
    true
}

/// The values of answers.
pub open spec fn values_of(answers: Seq<AuthenticationPromptAnswerView>) -> Seq<Seq<char>> {
    Seq::new(answers.len(), |i: int| answers[i].value)
}

/// The prompts that wait.
pub type Prompts = Map<Seq<char>, PendingAuthenticationView>;

/// The prompts after answers came in, and the values that are handed on.
pub open spec fn answered(prompts: Prompts, response: AuthenticationPromptResponseView) -> Result<
    (Prompts, Seq<Seq<char>>),
    ErrorView,
> {
    if !prompts.contains_key(response.prompt_id) {
        Err(stale_prompt_error())
    } else {
        let prompt = prompts[response.prompt_id];
        if prompt.operation_id != response.operation_id || !answers_fit(
            prompt.answer_ids,
            response.answers,
        ) {
            Err(stale_prompt_error())
        } else {
            Ok((prompts.remove(response.prompt_id), values_of(response.answers)))
        }
    }
}

/// The prompts that belong to other operations.
pub open spec fn without_operation(prompts: Prompts, operation_id: Seq<char>) -> Prompts {
    Map::new(
        |k: Seq<char>| prompts.contains_key(k) && prompts[k].operation_id != operation_id,
        |k: Seq<char>| prompts[k],
    )
}

/// Keeps the prompts that wait for answers.
pub struct AuthenticationBroker {
    pending: KeyedList<PendingAuthentication>,
}

impl View for AuthenticationBroker {
    type V = Prompts;

    closed spec fn view(&self) -> Prompts {
        self.pending.contents()
    }
}

impl AuthenticationBroker {
    /// No prompt stands there twice.
    pub closed spec fn wf(self) -> bool {
        self.pending.wf()
    }

    /// A broker without prompts.
    pub fn new() -> (r: Self)
        ensures
            r.wf(),
            r@ == Map::<Seq<char>, PendingAuthenticationView>::empty(),
    {
        let r = AuthenticationBroker { pending: KeyedList::new() };
        assert(r@ =~= Map::empty());
        r
    }

    /// Adds a prompt under an id.
    pub fn register_at(&mut self, prompt_id: String, operation_id: &str, answer_ids: Vec<String>)
        requires
            old(self).wf(),
        ensures
            final(self).wf(),
            final(self)@ == old(self)@.insert(
                prompt_id@,
                PendingAuthenticationView {
                    operation_id: operation_id@,
                    answer_ids: answer_ids.deep_view(),
                },
            ),
    {
        self.pending.put(
            prompt_id,
            PendingAuthentication { operation_id: operation_id.to_owned(), answer_ids },
        );
    }

    /// Adds a prompt and gives its id.
    pub fn register(&mut self, operation_id: &str, answer_ids: Vec<String>) -> (r: String)
        requires
            old(self).wf(),
        ensures
            final(self).wf(),
            outside::is_id_text(r@),
            final(self)@ == old(self)@.insert(
                r@,
                PendingAuthenticationView {
                    operation_id: operation_id@,
                    answer_ids: answer_ids.deep_view(),
                },
            ),
    {
        let prompt_id = new_id();
        let r = prompt_id.clone();
        self.register_at(prompt_id, operation_id, answer_ids);
        r
    }

    /// Takes answers in, and gives the values that are handed to the one who
    /// waits.
    pub fn respond(&mut self, response: AuthenticationPromptResponse) -> (r: Result<
        Vec<String>,
        AppError,
    >)
        requires
            old(self).wf(),
        ensures
            final(self).wf(),
            error::changes_as(old(self)@, final(self)@, r, answered(old(self)@, response@)),
    {
        match self.pending.place(response.prompt_id.as_str()) {
            None => {
                return Err(stale_prompt());
            },
            Some(at) => {
                let entry = self.pending.value_at(at);
                if !same(entry.operation_id.as_str(), response.operation_id.as_str())
                    || !answers_match(&entry.answer_ids, &response.answers) {
                    return Err(stale_prompt());
                }
            },
        }
        let _ = self.pending.take(response.prompt_id.as_str());
        let ghost given = response@.answers;
        let mut values: Vec<String> = Vec::new();
        let mut i: usize = 0;
        while i < response.answers.len()
            invariant
                i <= given.len(),
                values@.len() == i,
                forall|j: int| 0 <= j < i ==> (#[trigger] values@[j])@ == given[j].value,
            decreases given.len() - i,
        {
            values.push(response.answers[i].value.clone());
            i = i + 1;
        }
        assert(values.deep_view() =~= values_of(given));
        Ok(values)
    }

    /// Drops the prompts of an operation.
    pub fn cancel_operation(&mut self, operation_id: &str)
        requires
            old(self).wf(),
        ensures
            final(self).wf(),
            final(self)@ == without_operation(old(self)@, operation_id@),
    {
        let mut i: usize = 0;
        while i < self.pending.len()
            invariant
                self.pending.wf(),
                i <= self.pending.keys().len(),
                forall|k: Seq<char>| #[trigger]
                    self@.contains_key(k) ==> old(self)@.contains_key(k) && self@[k] == old(
                        self,
                    )@[k],
                forall|k: Seq<char>|
                    old(self)@.contains_key(k) && old(self)@[k].operation_id != operation_id@
                        ==> #[trigger] self@.contains_key(k),
                forall|j: int|
                    0 <= j < i ==> (#[trigger] self.pending.values()[j])@.operation_id
                        != operation_id@,
            decreases self.pending.keys().len() - i,
        {
            proof {
                self.pending.lemma_at(i as int);
            }
            if same(self.pending.value_at(i).operation_id.as_str(), operation_id) {
                let ghost before = self.pending;
                let ghost prompts = self@;
                let _ = self.pending.remove_at(i);
                proof {
                    assert forall|k: Seq<char>| #[trigger] self@.contains_key(k) implies old(
                        self,
                    )@.contains_key(k) && self@[k] == old(self)@[k] by {
                        assert(self.pending.has(k));
                        assert(k != before.keys()[i as int]);
                        assert(before.has(k));
                        assert(prompts.contains_key(k));
                        assert(self@[k] == prompts[k]);
                    }
                    assert forall|k: Seq<char>|
                        old(self)@.contains_key(k) && old(self)@[k].operation_id
                            != operation_id@ implies #[trigger] self@.contains_key(k) by {
                        assert(prompts.contains_key(k));
                        assert(prompts[k] == old(self)@[k]);
                        assert(k != before.keys()[i as int]);
                        assert(self.pending.has(k));
                    }
                    assert forall|j: int| 0 <= j < i implies (
                    #[trigger] self.pending.values()[j])@.operation_id != operation_id@ by {
                        assert(self.pending.values()[j] == before.values()[j]);
                    }
                }
            } else {
                i = i + 1;
            }
        }
        proof {
            let after = without_operation(old(self)@, operation_id@);
            assert forall|k: Seq<char>| #[trigger] self@.contains_key(k) == after.contains_key(
                k,
            ) by {
                if self@.contains_key(k) {
                    let at = self.pending.keys().index_of(k);
                    assert(self.pending.keys()[at] == k);
                    self.pending.lemma_at(at);
                    assert(self.pending.values()[at]@.operation_id != operation_id@);
                }
            }
            assert(self@ =~= after);
        }
    }

    /// Drops a prompt.
    pub fn remove(&mut self, prompt_id: &str)
        requires
            old(self).wf(),
        ensures
            final(self).wf(),
            final(self)@ == old(self)@.remove(prompt_id@),
    {
        let _ = self.pending.take(prompt_id);
    }
}

/// Answers reach a prompt only where they name its operation and answer its
/// questions in their order, and only once: the prompt is gone afterwards.
pub proof fn response_is_bound(
    prompts: Prompts,
    response: AuthenticationPromptResponseView,
)
    ensures
        answered(prompts, response) matches Ok((after, values)) ==> {
            &&& prompts.contains_key(response.prompt_id)
            &&& prompts[response.prompt_id].operation_id == response.operation_id
            &&& answers_fit(prompts[response.prompt_id].answer_ids, response.answers)
            &&& values.len() == prompts[response.prompt_id].answer_ids.len()
            &&& answered(after, response) is Err
            &&& forall|k: Seq<char>|
                k != response.prompt_id ==> (#[trigger] after.contains_key(k)
                    == prompts.contains_key(k)) && (after.contains_key(k) ==> after[k]
                    == prompts[k])
        },
{
}

/// Answers that do not fit change nothing: the right ones are still accepted.
pub proof fn mismatched_response_changes_nothing(
    prompts: Prompts,
    wrong: AuthenticationPromptResponseView,
    right: AuthenticationPromptResponseView,
)
    requires
        answered(prompts, wrong) is Err,
        prompts.contains_key(right.prompt_id),
        prompts[right.prompt_id].operation_id == right.operation_id,
        answers_fit(prompts[right.prompt_id].answer_ids, right.answers),
    ensures
        answered(prompts, right) == Ok::<(Prompts, Seq<Seq<char>>), ErrorView>(
            (prompts.remove(right.prompt_id), values_of(right.answers)),
        ),
{
}

/// Once an operation is cancelled, answers to its prompts are refused, and the
/// prompts of other operations stay.
pub proof fn cancelled_prompts_are_stale(
    prompts: Prompts,
    operation_id: Seq<char>,
    response: AuthenticationPromptResponseView,
)
    ensures
        response.operation_id == operation_id ==> answered(
            without_operation(prompts, operation_id),
            response,
        ) == Err::<(Prompts, Seq<Seq<char>>), ErrorView>(stale_prompt_error()),
        prompts.contains_key(response.prompt_id) && prompts[response.prompt_id].operation_id
            != operation_id ==> without_operation(prompts, operation_id).contains_key(
            response.prompt_id,
        ),
{
}

/// Answers are accepted if and only if the prompt is open, is of the operation that they
/// name, and each answers the question at its place; what was entered is then handed on in
/// that order. Everything else is refused as out of date.
pub proof fn fitting_answers_are_handed_on(
    prompts: Prompts,
    response: AuthenticationPromptResponseView,
)
    ensures
        answered(prompts, response) is Ok <==> {
            &&& prompts.contains_key(response.prompt_id)
            &&& prompts[response.prompt_id].operation_id == response.operation_id
            &&& prompts[response.prompt_id].answer_ids.len() == response.answers.len()
            &&& forall|i: int|
                0 <= i < response.answers.len() ==> prompts[response.prompt_id].answer_ids[i] == (
                #[trigger] response.answers[i]).id
        },
        match answered(prompts, response) {
            Ok((after, values)) => {
                &&& !after.contains_key(response.prompt_id)
                &&& values.len() == response.answers.len()
                &&& forall|i: int|
                    0 <= i < values.len() ==> #[trigger] values[i] == response.answers[i].value
            },
            Err(error) => error.code == "AUTH-PROMPT-STALE"@ && error.retryable,
        },
{
}

/// Cancelling an operation closes its prompts and no others.
pub proof fn cancelling_closes_the_prompts_of_the_operation(
    prompts: Prompts,
    operation_id: Seq<char>,
    prompt_id: Seq<char>,
)
    ensures
        ({
            let after = without_operation(prompts, operation_id);
            &&& after.contains_key(prompt_id) <==> prompts.contains_key(prompt_id)
                && prompts[prompt_id].operation_id != operation_id
            &&& after.contains_key(prompt_id) ==> after[prompt_id] == prompts[prompt_id]
        }),
{
}

} // verus!
