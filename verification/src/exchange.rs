//! A request to a CalDAV server, with at most one refresh of the token and one second try.

use crate::caldav::{
    failure, first_verdict, judge_first, judge_retry, judge_unsigned, request_failed, retry_verdict,
    token_for_retry, unsigned_verdict, Operation, Verdict, VerdictModel,
};
use crate::sync::{SyncError, SyncErrorModel};
use crate::auth::outcome_view;
use vstd::prelude::*;

verus! {

// ── The model ──────────────────────────────────────────────────────

pub enum StageModel {
    /// The credentials are looked up.
    Signing,
    /// The request is sent with them.
    Sending,
    /// The token is refreshed.
    Refreshing,
    /// The request is sent again, with the new token.
    SendingAgain(Seq<char>),
    /// The last reply is taken.
    Accepted,
    /// There is no reply to take.
    Refused(SyncErrorModel),
}

/// A request between two things that happen to it.
pub struct ExchangeModel {
    pub op: Operation,
    pub url: Seq<char>,
    pub source_id: Seq<char>,
    pub stage: StageModel,
}

pub open spec fn fresh_exchange(
    op: Operation,
    url: Seq<char>,
    source_id: Seq<char>,
) -> ExchangeModel {
    ExchangeModel { op, url, source_id, stage: StageModel::Signing }
}

pub open spec fn stage_after(verdict: VerdictModel) -> StageModel {
    match verdict {
        VerdictModel::Accept => StageModel::Accepted,
        VerdictModel::Refresh => StageModel::Refreshing,
        VerdictModel::Refuse(e) => StageModel::Refused(e),
    }
}

/// What came back of a request: a status with its text, or why it did not get through.
pub type Reply = Result<(u16, String), String>;

pub enum ReplyModel {
    Status(u16, Seq<char>),
    Lost(Seq<char>),
}

pub open spec fn reply_view(reply: Reply) -> ReplyModel {
    match reply {
        Ok((status, text)) => ReplyModel::Status(status, text@),
        Err(cause) => ReplyModel::Lost(cause@),
    }
}

pub open spec fn after_signing(
    x: ExchangeModel,
    signed: Result<(), SyncErrorModel>,
) -> ExchangeModel {
    ExchangeModel {
        stage: match signed {
            Ok(()) => StageModel::Sending,
            Err(e) => stage_after(unsigned_verdict(x.op, e)),
        },
        ..x
    }
}

pub open spec fn after_reply(x: ExchangeModel, reply: ReplyModel) -> ExchangeModel {
    ExchangeModel {
        stage: match reply {
            ReplyModel::Status(status, text) => stage_after(
                first_verdict(x.op, x.url, status, text),
            ),
            ReplyModel::Lost(cause) => StageModel::Refused(
                SyncErrorModel::Other(failure(x.op, false, x.url, cause)),
            ),
        },
        ..x
    }
}

/// After the refresh: a source that cannot be refreshed needs the user to sign in again.
pub open spec fn after_refresh(
    x: ExchangeModel,
    refreshed: Result<Option<Seq<char>>, SyncErrorModel>,
) -> ExchangeModel {
    ExchangeModel {
        stage: match refreshed {
            Ok(Some(token)) => StageModel::SendingAgain(token),
            Ok(None) => StageModel::Refused(SyncErrorModel::AuthExpired(x.source_id)),
            Err(e) => StageModel::Refused(e),
        },
        ..x
    }
}

pub open spec fn after_second_reply(x: ExchangeModel, reply: ReplyModel) -> ExchangeModel {
    ExchangeModel {
        stage: match reply {
            ReplyModel::Status(status, text) => stage_after(
                retry_verdict(x.op, x.url, x.source_id, status, text),
            ),
            ReplyModel::Lost(cause) => StageModel::Refused(
                SyncErrorModel::Other(failure(x.op, true, x.url, cause)),
            ),
        },
        ..x
    }
}

// ── The exchange ───────────────────────────────────────────────────

/// What is to be done for a request.
#[derive(Debug)]
pub enum Stage {
    /// Look up the credentials.
    Signing,
    /// Send the request with them.
    Sending,
    /// Refresh the token.
    Refreshing,
    /// Send the request again, with this token.
    SendingAgain(String),
    /// Nothing: the last reply is taken.
    Accepted,
    /// Nothing: there is no reply to take.
    Refused(SyncError),
}

impl View for Stage {
    type V = StageModel;

    open spec fn view(&self) -> StageModel {
        match self {
            Stage::Signing => StageModel::Signing,
            Stage::Sending => StageModel::Sending,
            Stage::Refreshing => StageModel::Refreshing,
            Stage::SendingAgain(token) => StageModel::SendingAgain(token@),
            Stage::Accepted => StageModel::Accepted,
            Stage::Refused(e) => StageModel::Refused(e@),
        }
    }
}

/// A request to a server.
#[derive(Debug)]
pub struct Exchange {
    pub op: Operation,
    pub url: String,
    pub source_id: String,
    pub stage: Stage,
}

impl View for Exchange {
    type V = ExchangeModel;

    open spec fn view(&self) -> ExchangeModel {
        ExchangeModel {
            op: self.op,
            url: self.url@,
            source_id: self.source_id@,
            stage: self.stage@,
        }
    }
}

fn next_stage(verdict: Verdict) -> (r: Stage)
    ensures
        r@ == stage_after(verdict@),
{
    match verdict {
        Verdict::Accept => Stage::Accepted,
        Verdict::Refresh => Stage::Refreshing,
        Verdict::Refuse(e) => Stage::Refused(e),
    }
}

pub open spec fn signed_view(signed: Result<(), SyncError>) -> Result<(), SyncErrorModel> {
    match signed {
        Ok(()) => Ok(()),
        Err(e) => Err(e@),
    }
}

impl Exchange {
    /// A request that is yet to be signed.
    pub fn start(op: Operation, url: &str, source_id: &str) -> (r: Exchange)
        ensures
            r@ == fresh_exchange(op, url@, source_id@),
    {
        Exchange { op, url: url.to_owned(), source_id: source_id.to_owned(), stage: Stage::Signing }
    }

    /// The credentials were looked up.
    pub fn on_signed(self, signed: Result<(), SyncError>) -> (r: Exchange)
        requires
            self@.stage is Signing,
        ensures
            r@ == after_signing(self@, signed_view(signed)),
    {
        let stage = match signed {
            Ok(()) => Stage::Sending,
            Err(e) => next_stage(judge_unsigned(self.op, e)),
        };
        Exchange { stage, ..self }
    }

    /// The request was sent.
    pub fn on_reply(self, reply: Reply) -> (r: Exchange)
        requires
            self@.stage is Sending,
        ensures
            r@ == after_reply(self@, reply_view(reply)),
    {
        let stage = match reply {
            Ok((status, text)) => next_stage(
                judge_first(self.op, self.url.as_str(), status, text.as_str()),
            ),
            Err(cause) => Stage::Refused(
                request_failed(self.op, false, self.url.as_str(), cause.as_str()),
            ),
        };
        Exchange { stage, ..self }
    }

    /// The token was refreshed, or not.
    pub fn on_refreshed(self, refreshed: Result<Option<String>, SyncError>) -> (r: Exchange)
        requires
            self@.stage is Refreshing,
        ensures
            r@ == after_refresh(self@, outcome_view(refreshed)),
    {
        let stage = match token_for_retry(self.source_id.as_str(), refreshed) {
            Ok(token) => Stage::SendingAgain(token),
            Err(e) => Stage::Refused(e),
        };
        Exchange { stage, ..self }
    }

    /// The request was sent again.
    pub fn on_second_reply(self, reply: Reply) -> (r: Exchange)
        requires
            self@.stage is SendingAgain,
        ensures
            r@ == after_second_reply(self@, reply_view(reply)),
            r@.stage is Accepted || r@.stage is Refused,
    {
        let stage = match reply {
            Ok((status, text)) => next_stage(
                judge_retry(
                    self.op,
                    self.url.as_str(),
                    self.source_id.as_str(),
                    status,
                    text.as_str(),
                ),
            ),
            Err(cause) => Stage::Refused(
                request_failed(self.op, true, self.url.as_str(), cause.as_str()),
            ),
        };
        Exchange { stage, ..self }
    }
}

// ── What holds of every exchange ───────────────────────────────────

/// How far an exchange has come.
pub open spec fn progress(stage: StageModel) -> int {
    match stage {
        StageModel::Signing => 0,
        StageModel::Sending => 1,
        StageModel::Refreshing => 2,
        StageModel::SendingAgain(_) => 3,
        StageModel::Accepted => 4,
        StageModel::Refused(_) => 4,
    }
}

/// Whether an exchange comes from another by one thing that happens to it.
pub open spec fn follows(x: ExchangeModel, y: ExchangeModel) -> bool {
    match x.stage {
        StageModel::Signing => exists|s: Result<(), SyncErrorModel>| y == after_signing(x, s),
        StageModel::Sending => exists|r: ReplyModel| y == after_reply(x, r),
        StageModel::Refreshing => exists|r: Result<Option<Seq<char>>, SyncErrorModel>|
            y == after_refresh(x, r),
        StageModel::SendingAgain(_) => exists|r: ReplyModel| y == after_second_reply(x, r),
        _ => false,
    }
}

/// Whatever happens, an exchange goes forward: a token is refreshed at most once, a request
/// is sent at most twice, and the exchange ends.
pub proof fn lemma_goes_forward(x: ExchangeModel, y: ExchangeModel)
    requires
        follows(x, y),
    ensures
        progress(x.stage) < progress(y.stage),
        y.op == x.op,
        y.url == x.url,
        y.source_id == x.source_id,
{
}

/// A reply is taken only where the server says that the request succeeded.
pub proof fn lemma_accepted_is_success(x: ExchangeModel, reply: ReplyModel)
    ensures
        after_reply(x, reply).stage is Accepted ==> (reply matches ReplyModel::Status(status, _)
            && crate::caldav::is_success(status)),
        after_second_reply(x, reply).stage is Accepted ==> (reply matches ReplyModel::Status(
            status,
            _,
        ) && crate::caldav::is_success(status)),
{
}

} // verus!
