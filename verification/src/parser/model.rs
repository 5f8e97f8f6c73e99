//! Typed models of log records and their parsers.
//!
//! Each record type has a model of the same shape in which texts are
//! sequences of characters (its deep view); the parsers are built from the
//! combinators, and the conversions that build records from parsed values are
//! the mappings below.

use vstd::prelude::*;

use crate::parser::combinators::{
    Alt, Delimited, KeyValue, Mapped, Permutation, Preceded, StripWhitespace, Tag, Unquote,
};
use crate::parser::constructors::{
    alt2, alt3, alt4, delimited, key_value, permutation2, permutation3, preceded, spec_key_value,
    strip_whitespace, tag, unquote,
};
use crate::parser::combinators::{
    lemma_permutation2_in_order, lemma_permutation2_reversed, lemma_permutation3_order_abc,
    lemma_permutation3_order_acb, lemma_permutation3_order_bac, lemma_permutation3_order_bca,
    lemma_permutation3_order_cab, lemma_permutation3_order_cba, lemma_quoted_tag_reads,
    lemma_tag_reads, lemma_unquote_quote, spec_quote,
};
use crate::parser::constructors::lemma_key_value_reads;
use crate::parser::stdp::{digits_value, lemma_u32_reads_decimal, U32};
use crate::parser::text::{
    is_ascii_digit, is_whitespace, lemma_trim_start, lemma_trim_start_gap, lemma_trim_start_none, trim_start,
};
use crate::parser::traits::{Mapping, Parsable, Parser};

verus! {

// ---------------------------------------------------------------------------
// Records
// ---------------------------------------------------------------------------

/// A status: success (written `Ok`), or an error with its message (written
/// `Err("...")`).
#[derive(Debug, Clone, PartialEq)]
pub enum Status {
    Success,
    Failure(String),
}

/// Every kind of log record.
#[derive(Debug, Clone, PartialEq)]
pub enum LogKind {
    System(SystemLogKind),
    App(AppLogKind),
}

/// The records of the [system](LogKind).
#[derive(Debug, Clone, PartialEq)]
pub enum SystemLogKind {
    Error(SystemLogErrorKind),
    Trace(SystemLogTraceKind),
}

/// Traces of the [system](SystemLogKind).
#[derive(Debug, Clone, PartialEq)]
pub enum SystemLogTraceKind {
    SendRequest(String),
    GetResponse(String),
}

/// Errors of the [system](SystemLogKind).
#[derive(Debug, Clone, PartialEq)]
pub enum SystemLogErrorKind {
    NetworkError(String),
    AccessDenied(String),
}

/// The records of the [application](LogKind).
#[derive(Debug, Clone, PartialEq)]
pub enum AppLogKind {
    Error(AppLogErrorKind),
    Trace(AppLogTraceKind),
    Journal(AppLogJournalKind),
}

/// Errors of the [application](AppLogKind).
#[derive(Debug, Clone, PartialEq)]
pub enum AppLogErrorKind {
    LackOf(String),
    SystemError(String),
}

/// Traces of the [application](AppLogKind).
///
/// There is no trace of a connection or of a check: the library has no type
/// for the authentication data or the announcements that they carry, so
/// `App::Trace Connect ...` and `App::Trace Check ...` are not read.
#[derive(Debug, Clone, PartialEq)]
pub enum AppLogTraceKind {
    SendRequest(String),
    GetResponse(String),
}

/// The journal of the [application](AppLogKind): its highest-level events.
///
/// There is no deposit or withdrawal of cash and no purchase or sale of
/// assets: the library has no type for a user's cash or a user's basket, the
/// data that these events carry, so `Journal DepositCash ...`,
/// `Journal WithdrawCash ...`, `Journal BuyAsset ...` and
/// `Journal SellAsset ...` are not read.
#[derive(Debug, Clone, PartialEq)]
pub enum AppLogJournalKind {
    CreateUser { user_id: String, authorized_capital: u32 },
    DeleteUser { user_id: String },
    RegisterAsset { asset_id: String, user_id: String, liquidity: u32 },
    UnregisterAsset { asset_id: String, user_id: String },
}

// ---------------------------------------------------------------------------
// Models
// ---------------------------------------------------------------------------

/// Model of a [`Status`].
pub enum SpecStatus {
    Success,
    Failure(Seq<char>),
}

/// Model of a [`LogKind`].
pub enum SpecLogKind {
    System(SpecSystemLogKind),
    App(SpecAppLogKind),
}

/// Model of a [`SystemLogKind`].
pub enum SpecSystemLogKind {
    Error(SpecSystemLogErrorKind),
    Trace(SpecSystemLogTraceKind),
}

/// Model of a [`SystemLogTraceKind`].
pub enum SpecSystemLogTraceKind {
    SendRequest(Seq<char>),
    GetResponse(Seq<char>),
}

/// Model of a [`SystemLogErrorKind`].
pub enum SpecSystemLogErrorKind {
    NetworkError(Seq<char>),
    AccessDenied(Seq<char>),
}

/// Model of an [`AppLogKind`].
pub enum SpecAppLogKind {
    Error(SpecAppLogErrorKind),
    Trace(SpecAppLogTraceKind),
    Journal(SpecAppLogJournalKind),
}

/// Model of an [`AppLogErrorKind`].
pub enum SpecAppLogErrorKind {
    LackOf(Seq<char>),
    SystemError(Seq<char>),
}

/// Model of an [`AppLogTraceKind`].
pub enum SpecAppLogTraceKind {
    SendRequest(Seq<char>),
    GetResponse(Seq<char>),
}

/// Model of an [`AppLogJournalKind`].
pub enum SpecAppLogJournalKind {
    CreateUser { user_id: Seq<char>, authorized_capital: u32 },
    DeleteUser { user_id: Seq<char> },
    RegisterAsset { asset_id: Seq<char>, user_id: Seq<char>, liquidity: u32 },
    UnregisterAsset { asset_id: Seq<char>, user_id: Seq<char> },
}

impl DeepView for Status {
    type V = SpecStatus;

    open spec fn deep_view(&self) -> SpecStatus {
        match self {
            Status::Success => SpecStatus::Success,
            Status::Failure(e) => SpecStatus::Failure(e@),
        }
    }
}

impl DeepView for LogKind {
    type V = SpecLogKind;

    open spec fn deep_view(&self) -> SpecLogKind {
        match self {
            LogKind::System(s) => SpecLogKind::System(s.deep_view()),
            LogKind::App(a) => SpecLogKind::App(a.deep_view()),
        }
    }
}

impl DeepView for SystemLogKind {
    type V = SpecSystemLogKind;

    open spec fn deep_view(&self) -> SpecSystemLogKind {
        match self {
            SystemLogKind::Error(e) => SpecSystemLogKind::Error(e.deep_view()),
            SystemLogKind::Trace(t) => SpecSystemLogKind::Trace(t.deep_view()),
        }
    }
}

impl DeepView for SystemLogTraceKind {
    type V = SpecSystemLogTraceKind;

    open spec fn deep_view(&self) -> SpecSystemLogTraceKind {
        match self {
            SystemLogTraceKind::SendRequest(r) => SpecSystemLogTraceKind::SendRequest(r@),
            SystemLogTraceKind::GetResponse(r) => SpecSystemLogTraceKind::GetResponse(r@),
        }
    }
}

impl DeepView for SystemLogErrorKind {
    type V = SpecSystemLogErrorKind;

    open spec fn deep_view(&self) -> SpecSystemLogErrorKind {
        match self {
            SystemLogErrorKind::NetworkError(e) => SpecSystemLogErrorKind::NetworkError(e@),
            SystemLogErrorKind::AccessDenied(e) => SpecSystemLogErrorKind::AccessDenied(e@),
        }
    }
}

impl DeepView for AppLogKind {
    type V = SpecAppLogKind;

    open spec fn deep_view(&self) -> SpecAppLogKind {
        match self {
            AppLogKind::Error(e) => SpecAppLogKind::Error(e.deep_view()),
            AppLogKind::Trace(t) => SpecAppLogKind::Trace(t.deep_view()),
            AppLogKind::Journal(j) => SpecAppLogKind::Journal(j.deep_view()),
        }
    }
}

impl DeepView for AppLogErrorKind {
    type V = SpecAppLogErrorKind;

    open spec fn deep_view(&self) -> SpecAppLogErrorKind {
        match self {
            AppLogErrorKind::LackOf(e) => SpecAppLogErrorKind::LackOf(e@),
            AppLogErrorKind::SystemError(e) => SpecAppLogErrorKind::SystemError(e@),
        }
    }
}

impl DeepView for AppLogTraceKind {
    type V = SpecAppLogTraceKind;

    open spec fn deep_view(&self) -> SpecAppLogTraceKind {
        match self {
            AppLogTraceKind::SendRequest(r) => SpecAppLogTraceKind::SendRequest(r@),
            AppLogTraceKind::GetResponse(r) => SpecAppLogTraceKind::GetResponse(r@),
        }
    }
}

impl DeepView for AppLogJournalKind {
    type V = SpecAppLogJournalKind;

    open spec fn deep_view(&self) -> SpecAppLogJournalKind {
        match self {
            AppLogJournalKind::CreateUser { user_id, authorized_capital } => {
                SpecAppLogJournalKind::CreateUser {
                    user_id: user_id@,
                    authorized_capital: *authorized_capital,
                }
            },
            AppLogJournalKind::DeleteUser { user_id } => SpecAppLogJournalKind::DeleteUser {
                user_id: user_id@,
            },
            AppLogJournalKind::RegisterAsset { asset_id, user_id, liquidity } => {
                SpecAppLogJournalKind::RegisterAsset {
                    asset_id: asset_id@,
                    user_id: user_id@,
                    liquidity: *liquidity,
                }
            },
            AppLogJournalKind::UnregisterAsset { asset_id, user_id } => {
                SpecAppLogJournalKind::UnregisterAsset { asset_id: asset_id@, user_id: user_id@ }
            },
        }
    }
}

} // verus!

verus! {

// ---------------------------------------------------------------------------
// Conversions from parsed values to records
// ---------------------------------------------------------------------------

/// Makes the success [`Status`].
#[derive(Debug, Clone)]
pub struct ToSuccess;

impl Mapping<()> for ToSuccess {
    type Out = Status;

    open spec fn spec_apply(&self, a: ()) -> SpecStatus {
        SpecStatus::Success
    }

    fn apply(&self, a: ()) -> (b: Status) {
        Status::Success
    }
}

/// Makes an error [`Status`] from its text.
#[derive(Debug, Clone)]
pub struct ToFailure;

impl Mapping<String> for ToFailure {
    type Out = Status;

    open spec fn spec_apply(&self, a: Seq<char>) -> SpecStatus {
        SpecStatus::Failure(a)
    }

    fn apply(&self, a: String) -> (b: Status) {
        Status::Failure(a)
    }
}

/// Makes a network error of the system from its text.
#[derive(Debug, Clone)]
pub struct ToNetworkError;

impl Mapping<String> for ToNetworkError {
    type Out = SystemLogErrorKind;

    open spec fn spec_apply(&self, a: Seq<char>) -> SpecSystemLogErrorKind {
        SpecSystemLogErrorKind::NetworkError(a)
    }

    fn apply(&self, a: String) -> (b: SystemLogErrorKind) {
        SystemLogErrorKind::NetworkError(a)
    }
}

/// Makes a denied access of the system from its text.
#[derive(Debug, Clone)]
pub struct ToAccessDenied;

impl Mapping<String> for ToAccessDenied {
    type Out = SystemLogErrorKind;

    open spec fn spec_apply(&self, a: Seq<char>) -> SpecSystemLogErrorKind {
        SpecSystemLogErrorKind::AccessDenied(a)
    }

    fn apply(&self, a: String) -> (b: SystemLogErrorKind) {
        SystemLogErrorKind::AccessDenied(a)
    }
}

/// Makes a request sent by the system from its text.
#[derive(Debug, Clone)]
pub struct ToSystemSendRequest;

impl Mapping<String> for ToSystemSendRequest {
    type Out = SystemLogTraceKind;

    open spec fn spec_apply(&self, a: Seq<char>) -> SpecSystemLogTraceKind {
        SpecSystemLogTraceKind::SendRequest(a)
    }

    fn apply(&self, a: String) -> (b: SystemLogTraceKind) {
        SystemLogTraceKind::SendRequest(a)
    }
}

/// Makes a response got by the system from its text.
#[derive(Debug, Clone)]
pub struct ToSystemGetResponse;

impl Mapping<String> for ToSystemGetResponse {
    type Out = SystemLogTraceKind;

    open spec fn spec_apply(&self, a: Seq<char>) -> SpecSystemLogTraceKind {
        SpecSystemLogTraceKind::GetResponse(a)
    }

    fn apply(&self, a: String) -> (b: SystemLogTraceKind) {
        SystemLogTraceKind::GetResponse(a)
    }
}

/// Makes a lack of something in the application from its text.
#[derive(Debug, Clone)]
pub struct ToLackOf;

impl Mapping<String> for ToLackOf {
    type Out = AppLogErrorKind;

    open spec fn spec_apply(&self, a: Seq<char>) -> SpecAppLogErrorKind {
        SpecAppLogErrorKind::LackOf(a)
    }

    fn apply(&self, a: String) -> (b: AppLogErrorKind) {
        AppLogErrorKind::LackOf(a)
    }
}

/// Makes a system error seen by the application from its text.
#[derive(Debug, Clone)]
pub struct ToSystemError;

impl Mapping<String> for ToSystemError {
    type Out = AppLogErrorKind;

    open spec fn spec_apply(&self, a: Seq<char>) -> SpecAppLogErrorKind {
        SpecAppLogErrorKind::SystemError(a)
    }

    fn apply(&self, a: String) -> (b: AppLogErrorKind) {
        AppLogErrorKind::SystemError(a)
    }
}

/// Makes a request sent by the application from its text.
#[derive(Debug, Clone)]
pub struct ToAppSendRequest;

impl Mapping<String> for ToAppSendRequest {
    type Out = AppLogTraceKind;

    open spec fn spec_apply(&self, a: Seq<char>) -> SpecAppLogTraceKind {
        SpecAppLogTraceKind::SendRequest(a)
    }

    fn apply(&self, a: String) -> (b: AppLogTraceKind) {
        AppLogTraceKind::SendRequest(a)
    }
}

/// Makes a response got by the application from its text.
#[derive(Debug, Clone)]
pub struct ToAppGetResponse;

impl Mapping<String> for ToAppGetResponse {
    type Out = AppLogTraceKind;

    open spec fn spec_apply(&self, a: Seq<char>) -> SpecAppLogTraceKind {
        SpecAppLogTraceKind::GetResponse(a)
    }

    fn apply(&self, a: String) -> (b: AppLogTraceKind) {
        AppLogTraceKind::GetResponse(a)
    }
}

/// Wraps a system trace as a system record.
#[derive(Debug, Clone)]
pub struct ToSystemTrace;

impl Mapping<SystemLogTraceKind> for ToSystemTrace {
    type Out = SystemLogKind;

    open spec fn spec_apply(&self, a: SpecSystemLogTraceKind) -> SpecSystemLogKind {
        SpecSystemLogKind::Trace(a)
    }

    fn apply(&self, a: SystemLogTraceKind) -> (b: SystemLogKind) {
        SystemLogKind::Trace(a)
    }
}

/// Wraps a system error as a system record.
#[derive(Debug, Clone)]
pub struct ToSystemErrorRecord;

impl Mapping<SystemLogErrorKind> for ToSystemErrorRecord {
    type Out = SystemLogKind;

    open spec fn spec_apply(&self, a: SpecSystemLogErrorKind) -> SpecSystemLogKind {
        SpecSystemLogKind::Error(a)
    }

    fn apply(&self, a: SystemLogErrorKind) -> (b: SystemLogKind) {
        SystemLogKind::Error(a)
    }
}

/// Wraps an application error as an application record.
#[derive(Debug, Clone)]
pub struct ToAppError;

impl Mapping<AppLogErrorKind> for ToAppError {
    type Out = AppLogKind;

    open spec fn spec_apply(&self, a: SpecAppLogErrorKind) -> SpecAppLogKind {
        SpecAppLogKind::Error(a)
    }

    fn apply(&self, a: AppLogErrorKind) -> (b: AppLogKind) {
        AppLogKind::Error(a)
    }
}

/// Wraps an application trace as an application record.
#[derive(Debug, Clone)]
pub struct ToAppTrace;

impl Mapping<AppLogTraceKind> for ToAppTrace {
    type Out = AppLogKind;

    open spec fn spec_apply(&self, a: SpecAppLogTraceKind) -> SpecAppLogKind {
        SpecAppLogKind::Trace(a)
    }

    fn apply(&self, a: AppLogTraceKind) -> (b: AppLogKind) {
        AppLogKind::Trace(a)
    }
}

/// Wraps a journal event as an application record.
#[derive(Debug, Clone)]
pub struct ToAppJournal;

impl Mapping<AppLogJournalKind> for ToAppJournal {
    type Out = AppLogKind;

    open spec fn spec_apply(&self, a: SpecAppLogJournalKind) -> SpecAppLogKind {
        SpecAppLogKind::Journal(a)
    }

    fn apply(&self, a: AppLogJournalKind) -> (b: AppLogKind) {
        AppLogKind::Journal(a)
    }
}

/// Wraps a system record as a log record.
#[derive(Debug, Clone)]
pub struct ToSystemLog;

impl Mapping<SystemLogKind> for ToSystemLog {
    type Out = LogKind;

    open spec fn spec_apply(&self, a: SpecSystemLogKind) -> SpecLogKind {
        SpecLogKind::System(a)
    }

    fn apply(&self, a: SystemLogKind) -> (b: LogKind) {
        LogKind::System(a)
    }
}

/// Wraps an application record as a log record.
#[derive(Debug, Clone)]
pub struct ToAppLog;

impl Mapping<AppLogKind> for ToAppLog {
    type Out = LogKind;

    open spec fn spec_apply(&self, a: SpecAppLogKind) -> SpecLogKind {
        SpecLogKind::App(a)
    }

    fn apply(&self, a: AppLogKind) -> (b: LogKind) {
        LogKind::App(a)
    }
}

/// Makes the creation of a user from its id and authorized capital.
#[derive(Debug, Clone)]
pub struct ToCreateUser;

impl Mapping<(String, u32)> for ToCreateUser {
    type Out = AppLogJournalKind;

    open spec fn spec_apply(&self, a: (Seq<char>, u32)) -> SpecAppLogJournalKind {
        SpecAppLogJournalKind::CreateUser { user_id: a.0, authorized_capital: a.1 }
    }

    fn apply(&self, a: (String, u32)) -> (b: AppLogJournalKind) {
        let (user_id, authorized_capital) = a;
        AppLogJournalKind::CreateUser { user_id, authorized_capital }
    }
}

/// Makes the deletion of a user from its id.
#[derive(Debug, Clone)]
pub struct ToDeleteUser;

impl Mapping<String> for ToDeleteUser {
    type Out = AppLogJournalKind;

    open spec fn spec_apply(&self, a: Seq<char>) -> SpecAppLogJournalKind {
        SpecAppLogJournalKind::DeleteUser { user_id: a }
    }

    fn apply(&self, a: String) -> (b: AppLogJournalKind) {
        AppLogJournalKind::DeleteUser { user_id: a }
    }
}

/// Makes the registration of an asset from its id, its user's id and its
/// liquidity.
#[derive(Debug, Clone)]
pub struct ToRegisterAsset;

impl Mapping<(String, String, u32)> for ToRegisterAsset {
    type Out = AppLogJournalKind;

    open spec fn spec_apply(&self, a: (Seq<char>, Seq<char>, u32)) -> SpecAppLogJournalKind {
        SpecAppLogJournalKind::RegisterAsset { asset_id: a.0, user_id: a.1, liquidity: a.2 }
    }

    fn apply(&self, a: (String, String, u32)) -> (b: AppLogJournalKind) {
        let (asset_id, user_id, liquidity) = a;
        AppLogJournalKind::RegisterAsset { asset_id, user_id, liquidity }
    }
}

/// Makes the unregistration of an asset from its id and its user's id.
#[derive(Debug, Clone)]
pub struct ToUnregisterAsset;

impl Mapping<(String, String)> for ToUnregisterAsset {
    type Out = AppLogJournalKind;

    open spec fn spec_apply(&self, a: (Seq<char>, Seq<char>)) -> SpecAppLogJournalKind {
        SpecAppLogJournalKind::UnregisterAsset { asset_id: a.0, user_id: a.1 }
    }

    fn apply(&self, a: (String, String)) -> (b: AppLogJournalKind) {
        let (asset_id, user_id) = a;
        AppLogJournalKind::UnregisterAsset { asset_id, user_id }
    }
}

} // verus!

verus! {

// ---------------------------------------------------------------------------
// Parsers
// ---------------------------------------------------------------------------

/// A tag and a quoted text, each after optional white space; the text is
/// converted with a mapping.
pub type TaggedText<M> = Mapped<Preceded<StripWhitespace<Tag>, StripWhitespace<Unquote>>, M>;

/// The [`TaggedText`] of the tag `text`, converted with `m`.
pub open spec fn spec_tagged_text<M>(text: &'static str, m: M) -> TaggedText<M> {
    Mapped {
        parser: Preceded {
            prefix_to_ignore: StripWhitespace { parser: Tag { tag: text } },
            dest_parser: StripWhitespace { parser: Unquote },
        },
        map: m,
    }
}

/// Builds the [`TaggedText`] of the tag `text`, converted with `m`.
pub fn tagged_text<M: Mapping<String>>(text: &'static str, m: M) -> (p: TaggedText<M>)
    ensures
        p == spec_tagged_text(text, m),
{
    crate::parser::constructors::map(
        preceded(strip_whitespace(tag(text)), strip_whitespace(unquote())),
        m,
    )
}

/// A tag after optional white space, then `{`, what `inner` reads and `}`;
/// the value is converted with a mapping.
pub type Braced<T, M> = Mapped<Preceded<StripWhitespace<Tag>, Delimited<Tag, T, Tag>>, M>;

/// The [`Braced`] of the tag `text` around `inner`, converted with `m`.
pub open spec fn spec_braced<T, M>(text: &'static str, inner: T, m: M) -> Braced<T, M> {
    Mapped {
        parser: Preceded {
            prefix_to_ignore: StripWhitespace { parser: Tag { tag: text } },
            dest_parser: Delimited {
                prefix_to_ignore: Tag { tag: "{" },
                dest_parser: inner,
                suffix_to_ignore: Tag { tag: "}" },
            },
        },
        map: m,
    }
}

/// Builds the [`Braced`] of the tag `text` around `inner`, converted with `m`.
pub fn braced<T: Parser, M: Mapping<T::Dest>>(text: &'static str, inner: T, m: M) -> (p: Braced<
    T,
    M,
>)
    ensures
        p == spec_braced(text, inner, m),
{
    crate::parser::constructors::map(
        preceded(strip_whitespace(tag(text)), delimited(tag("{"), inner, tag("}"))),
        m,
    )
}

impl Parsable for Status {
    type Parser = Alt<(Mapped<Tag, ToSuccess>, Mapped<Delimited<Tag, Unquote, Tag>, ToFailure>)>;

    open spec fn spec_parser() -> Self::Parser {
        Alt {
            parser: (
                Mapped { parser: Tag { tag: "Ok" }, map: ToSuccess },
                Mapped {
                    parser: Delimited {
                        prefix_to_ignore: Tag { tag: "Err(" },
                        dest_parser: Unquote,
                        suffix_to_ignore: Tag { tag: ")" },
                    },
                    map: ToFailure,
                },
            ),
        }
    }

    fn parser() -> (p: Self::Parser) {
        alt2(
            crate::parser::constructors::map(tag("Ok"), ToSuccess),
            crate::parser::constructors::map(
                delimited(tag("Err("), unquote(), tag(")")),
                ToFailure,
            ),
        )
    }
}

impl Parsable for SystemLogErrorKind {
    type Parser = Preceded<
        Tag,
        Alt<(TaggedText<ToNetworkError>, TaggedText<ToAccessDenied>)>,
    >;

    open spec fn spec_parser() -> Self::Parser {
        Preceded {
            prefix_to_ignore: Tag { tag: "Error" },
            dest_parser: Alt {
                parser: (
                    spec_tagged_text("NetworkError", ToNetworkError),
                    spec_tagged_text("AccessDenied", ToAccessDenied),
                ),
            },
        }
    }

    fn parser() -> (p: Self::Parser) {
        preceded(
            tag("Error"),
            alt2(
                tagged_text("NetworkError", ToNetworkError),
                tagged_text("AccessDenied", ToAccessDenied),
            ),
        )
    }
}

impl Parsable for SystemLogTraceKind {
    type Parser = Preceded<
        Tag,
        Alt<(TaggedText<ToSystemSendRequest>, TaggedText<ToSystemGetResponse>)>,
    >;

    open spec fn spec_parser() -> Self::Parser {
        Preceded {
            prefix_to_ignore: Tag { tag: "Trace" },
            dest_parser: Alt {
                parser: (
                    spec_tagged_text("SendRequest", ToSystemSendRequest),
                    spec_tagged_text("GetResponse", ToSystemGetResponse),
                ),
            },
        }
    }

    fn parser() -> (p: Self::Parser) {
        preceded(
            tag("Trace"),
            alt2(
                tagged_text("SendRequest", ToSystemSendRequest),
                tagged_text("GetResponse", ToSystemGetResponse),
            ),
        )
    }
}

impl Parsable for SystemLogKind {
    type Parser = StripWhitespace<
        Preceded<
            Tag,
            Alt<
                (
                    Mapped<<SystemLogTraceKind as Parsable>::Parser, ToSystemTrace>,
                    Mapped<<SystemLogErrorKind as Parsable>::Parser, ToSystemErrorRecord>,
                ),
            >,
        >,
    >;

    open spec fn spec_parser() -> Self::Parser {
        StripWhitespace {
            parser: Preceded {
                prefix_to_ignore: Tag { tag: "System::" },
                dest_parser: Alt {
                    parser: (
                        Mapped { parser: SystemLogTraceKind::spec_parser(), map: ToSystemTrace },
                        Mapped {
                            parser: SystemLogErrorKind::spec_parser(),
                            map: ToSystemErrorRecord,
                        },
                    ),
                },
            },
        }
    }

    fn parser() -> (p: Self::Parser) {
        strip_whitespace(
            preceded(
                tag("System::"),
                alt2(
                    crate::parser::constructors::map(SystemLogTraceKind::parser(), ToSystemTrace),
                    crate::parser::constructors::map(
                        SystemLogErrorKind::parser(),
                        ToSystemErrorRecord,
                    ),
                ),
            ),
        )
    }
}

impl Parsable for AppLogErrorKind {
    type Parser = Preceded<Tag, Alt<(TaggedText<ToLackOf>, TaggedText<ToSystemError>)>>;

    open spec fn spec_parser() -> Self::Parser {
        Preceded {
            prefix_to_ignore: Tag { tag: "Error" },
            dest_parser: Alt {
                parser: (
                    spec_tagged_text("LackOf", ToLackOf),
                    spec_tagged_text("SystemError", ToSystemError),
                ),
            },
        }
    }

    fn parser() -> (p: Self::Parser) {
        preceded(
            tag("Error"),
            alt2(tagged_text("LackOf", ToLackOf), tagged_text("SystemError", ToSystemError)),
        )
    }
}

impl Parsable for AppLogTraceKind {
    type Parser = Preceded<
        Tag,
        Alt<(TaggedText<ToAppSendRequest>, TaggedText<ToAppGetResponse>)>,
    >;

    open spec fn spec_parser() -> Self::Parser {
        Preceded {
            prefix_to_ignore: Tag { tag: "Trace" },
            dest_parser: Alt {
                parser: (
                    spec_tagged_text("SendRequest", ToAppSendRequest),
                    spec_tagged_text("GetResponse", ToAppGetResponse),
                ),
            },
        }
    }

    fn parser() -> (p: Self::Parser) {
        preceded(
            tag("Trace"),
            alt2(
                tagged_text("SendRequest", ToAppSendRequest),
                tagged_text("GetResponse", ToAppGetResponse),
            ),
        )
    }
}

impl Parsable for AppLogJournalKind {
    type Parser = Preceded<
        Tag,
        Alt<
            (
                Braced<Permutation<(KeyValue<Unquote>, KeyValue<U32>)>, ToCreateUser>,
                Braced<KeyValue<Unquote>, ToDeleteUser>,
                Braced<
                    Permutation<(KeyValue<Unquote>, KeyValue<Unquote>, KeyValue<U32>)>,
                    ToRegisterAsset,
                >,
                Braced<Permutation<(KeyValue<Unquote>, KeyValue<Unquote>)>, ToUnregisterAsset>,
            ),
        >,
    >;

    open spec fn spec_parser() -> Self::Parser {
        Preceded {
            prefix_to_ignore: Tag { tag: "Journal" },
            dest_parser: Alt {
                parser: (
                    spec_braced(
                        "CreateUser",
                        Permutation {
                            parsers: (
                                spec_key_value("user_id", Unquote),
                                spec_key_value("authorized_capital", U32),
                            ),
                        },
                        ToCreateUser,
                    ),
                    spec_braced("DeleteUser", spec_key_value("user_id", Unquote), ToDeleteUser),
                    spec_braced(
                        "RegisterAsset",
                        Permutation {
                            parsers: (
                                spec_key_value("asset_id", Unquote),
                                spec_key_value("user_id", Unquote),
                                spec_key_value("liquidity", U32),
                            ),
                        },
                        ToRegisterAsset,
                    ),
                    spec_braced(
                        "UnregisterAsset",
                        Permutation {
                            parsers: (
                                spec_key_value("asset_id", Unquote),
                                spec_key_value("user_id", Unquote),
                            ),
                        },
                        ToUnregisterAsset,
                    ),
                ),
            },
        }
    }

    fn parser() -> (p: Self::Parser) {
        preceded(
            tag("Journal"),
            alt4(
                braced(
                    "CreateUser",
                    permutation2(
                        key_value("user_id", unquote()),
                        key_value("authorized_capital", U32),
                    ),
                    ToCreateUser,
                ),
                braced("DeleteUser", key_value("user_id", unquote()), ToDeleteUser),
                braced(
                    "RegisterAsset",
                    permutation3(
                        key_value("asset_id", unquote()),
                        key_value("user_id", unquote()),
                        key_value("liquidity", U32),
                    ),
                    ToRegisterAsset,
                ),
                braced(
                    "UnregisterAsset",
                    permutation2(
                        key_value("asset_id", unquote()),
                        key_value("user_id", unquote()),
                    ),
                    ToUnregisterAsset,
                ),
            ),
        )
    }
}

impl Parsable for AppLogKind {
    type Parser = StripWhitespace<
        Preceded<
            Tag,
            Alt<
                (
                    Mapped<<AppLogErrorKind as Parsable>::Parser, ToAppError>,
                    Mapped<<AppLogTraceKind as Parsable>::Parser, ToAppTrace>,
                    Mapped<<AppLogJournalKind as Parsable>::Parser, ToAppJournal>,
                ),
            >,
        >,
    >;

    open spec fn spec_parser() -> Self::Parser {
        StripWhitespace {
            parser: Preceded {
                prefix_to_ignore: Tag { tag: "App::" },
                dest_parser: Alt {
                    parser: (
                        Mapped { parser: AppLogErrorKind::spec_parser(), map: ToAppError },
                        Mapped { parser: AppLogTraceKind::spec_parser(), map: ToAppTrace },
                        Mapped { parser: AppLogJournalKind::spec_parser(), map: ToAppJournal },
                    ),
                },
            },
        }
    }

    fn parser() -> (p: Self::Parser) {
        strip_whitespace(
            preceded(
                tag("App::"),
                alt3(
                    crate::parser::constructors::map(AppLogErrorKind::parser(), ToAppError),
                    crate::parser::constructors::map(AppLogTraceKind::parser(), ToAppTrace),
                    crate::parser::constructors::map(AppLogJournalKind::parser(), ToAppJournal),
                ),
            ),
        )
    }
}

impl Parsable for LogKind {
    type Parser = StripWhitespace<
        Alt<
            (
                Mapped<<SystemLogKind as Parsable>::Parser, ToSystemLog>,
                Mapped<<AppLogKind as Parsable>::Parser, ToAppLog>,
            ),
        >,
    >;

    open spec fn spec_parser() -> Self::Parser {
        StripWhitespace {
            parser: Alt {
                parser: (
                    Mapped { parser: SystemLogKind::spec_parser(), map: ToSystemLog },
                    Mapped { parser: AppLogKind::spec_parser(), map: ToAppLog },
                ),
            },
        }
    }

    fn parser() -> (p: Self::Parser) {
        strip_whitespace(
            alt2(
                crate::parser::constructors::map(SystemLogKind::parser(), ToSystemLog),
                crate::parser::constructors::map(AppLogKind::parser(), ToAppLog),
            ),
        )
    }
}

} // verus!

verus! {

// ---------------------------------------------------------------------------
// Laws of the record parsers
// ---------------------------------------------------------------------------

/// White space only.
pub open spec fn is_blank(gap: Seq<char>) -> bool {
    forall|k: int| 0 <= k < gap.len() ==> is_whitespace(gap[k])
}

/// A [`TaggedText`] reads white space, its tag, white space, and a text
/// quoted by [`quote`](crate::parser::combinators::quote); it gives the
/// converted text and leaves what follows without its leading white space.
pub proof fn lemma_tagged_text_reads<M: Mapping<String>>(
    text: &'static str,
    m: M,
    lead: Seq<char>,
    gap: Seq<char>,
    t: Seq<char>,
    rest: Seq<char>,
)
    requires
        text@.len() > 0,
        !is_whitespace(text@[0]),
        is_blank(lead),
        is_blank(gap),
    ensures
        spec_tagged_text(text, m).spec_parse(lead + text@ + gap + spec_quote(t) + rest) == Ok::<
            (Seq<char>, <M::Out as DeepView>::V),
            (),
        >((trim_start(rest), m.spec_apply(t))),
{
    let q = spec_quote(t);
    let body = text@ + gap + q + rest;
    assert(lead + text@ + gap + q + rest =~= lead + body);
    lemma_trim_start_gap(lead, body);
    assert(body[0] == text@[0]);
    lemma_trim_start_none(body);
    assert(text@ =~= body.subrange(0, text@.len() as int));
    let after_tag = body.skip(text@.len() as int);
    assert(after_tag =~= gap + (q + rest));
    lemma_trim_start_gap(gap, q + rest);
    assert((q + rest)[0] == '"');
    lemma_trim_start_none(q + rest);
    lemma_unquote_quote(t, rest);
    lemma_trim_start(rest);
}

/// A request trace of the system, written `System::Trace SendRequest` and a
/// text quoted by [`quote`](crate::parser::combinators::quote) (white space
/// allowed before the record and around `SendRequest`), parses back to that
/// record; what follows loses its leading white space.
#[verifier::rlimit(60)]
pub proof fn lemma_system_send_request_reads(
    gap0: Seq<char>,
    gap1: Seq<char>,
    gap2: Seq<char>,
    t: Seq<char>,
    rest: Seq<char>,
)
    requires
        is_blank(gap0),
        is_blank(gap1),
        is_blank(gap2),
    ensures
        LogKind::spec_parser().spec_parse(
            gap0 + "System::"@ + "Trace"@ + gap1 + "SendRequest"@ + gap2 + spec_quote(t) + rest,
        ) == Ok::<(Seq<char>, SpecLogKind), ()>(
            (
                trim_start(rest),
                SpecLogKind::System(
                    SpecSystemLogKind::Trace(SpecSystemLogTraceKind::SendRequest(t)),
                ),
            ),
        ),
{
    reveal_strlit("System::");
    reveal_strlit("Trace");
    reveal_strlit("SendRequest");
    reveal_strlit("GetResponse");
    let b = "Trace"@ + gap1 + "SendRequest"@ + gap2 + spec_quote(t) + rest;
    let x = gap0 + "System::"@ + b;
    assert(gap0 + "System::"@ + "Trace"@ + gap1 + "SendRequest"@ + gap2 + spec_quote(t) + rest
        =~= x);
    lemma_kind_reads(
        "Trace",
        "SendRequest",
        ToSystemSendRequest,
        "GetResponse",
        ToSystemGetResponse,
        false,
        gap1,
        gap2,
        t,
        rest,
    );
    lemma_trim_start(rest);
    assert(b[0] == 'T');
    lemma_system_kind_trace(
        gap0,
        b,
        trim_start(rest),
        SpecSystemLogTraceKind::SendRequest(t),
    );
    lemma_log_kind_system(
        x,
        trim_start(rest),
        SpecSystemLogKind::Trace(SpecSystemLogTraceKind::SendRequest(t)),
    );
}

} // verus!

verus! {

/// A [`Tag`] refuses a text that does not start with the tag's first
/// character.
pub proof fn lemma_tag_refuses(text: &'static str, s: Seq<char>)
    requires
        text@.len() > 0,
        s.len() == 0 || s[0] != text@[0],
    ensures
        (Tag { tag: text }).spec_parse(s) is Err,
{
    if text@.is_prefix_of(s) {
        assert(s.subrange(0, text@.len() as int)[0] == s[0]);
    }
}

/// A [`Preceded`] by a [`Tag`] reads the tag and then its main parser.
pub proof fn lemma_tag_then<T: Parser>(text: &'static str, inner: T, body: Seq<char>)
    ensures
        (Preceded { prefix_to_ignore: Tag { tag: text }, dest_parser: inner }).spec_parse(
            text@ + body,
        ) == inner.spec_parse(body),
{
    assert(text@ =~= (text@ + body).subrange(0, text@.len() as int));
    assert((text@ + body).skip(text@.len() as int) =~= body);
}

/// A [`TaggedText`] refuses a text that, after white space, does not start
/// with the tag's first character.
pub proof fn lemma_tagged_text_refuses<M: Mapping<String>>(text: &'static str, m: M, s: Seq<char>)
    requires
        text@.len() > 0,
        trim_start(s).len() == 0 || trim_start(s)[0] != text@[0],
    ensures
        spec_tagged_text(text, m).spec_parse(s) is Err,
{
    lemma_tag_refuses(text, trim_start(s));
}

/// The records of a kind with two tagged texts (such as the system traces): the
/// kind's tag, then white space, the tag of the record, white space and a
/// quoted text, read as that record with that text.
proof fn lemma_kind_reads<M0: Mapping<String>, M1: Mapping<String, Out = M0::Out>>(
    kind: &'static str,
    t0: &'static str,
    m0: M0,
    t1: &'static str,
    m1: M1,
    second: bool,
    gap1: Seq<char>,
    gap2: Seq<char>,
    t: Seq<char>,
    rest: Seq<char>,
)
    requires
        t0@.len() > 0,
        t1@.len() > 0,
        !is_whitespace(t0@[0]),
        !is_whitespace(t1@[0]),
        t0@[0] != t1@[0],
        is_blank(gap1),
        is_blank(gap2),
    ensures
        (Preceded {
            prefix_to_ignore: Tag { tag: kind },
            dest_parser: Alt { parser: (spec_tagged_text(t0, m0), spec_tagged_text(t1, m1)) },
        }).spec_parse(
            kind@ + gap1 + (if second {
                t1@
            } else {
                t0@
            }) + gap2 + spec_quote(t) + rest,
        ) == Ok::<(Seq<char>, <M0::Out as DeepView>::V), ()>(
            (
                trim_start(rest),
                if second {
                    m1.spec_apply(t)
                } else {
                    m0.spec_apply(t)
                },
            ),
        ),
{
    let tt = if second {
        t1@
    } else {
        t0@
    };
    let body = gap1 + tt + gap2 + spec_quote(t) + rest;
    assert(kind@ + gap1 + tt + gap2 + spec_quote(t) + rest =~= kind@ + body);
    let alt = Alt { parser: (spec_tagged_text(t0, m0), spec_tagged_text(t1, m1)) };
    lemma_tag_then(kind, alt, body);
    if second {
        let after = tt + gap2 + spec_quote(t) + rest;
        assert(body =~= gap1 + after);
        lemma_trim_start_gap(gap1, after);
        assert(after[0] == t1@[0]);
        lemma_trim_start_none(after);
        lemma_tagged_text_refuses(t0, m0, body);
        lemma_tagged_text_reads(t1, m1, gap1, gap2, t, rest);
    } else {
        lemma_tagged_text_reads(t0, m0, gap1, gap2, t, rest);
    }
}

/// A [`StripWhitespace`] reads a text as it reads that text without its
/// leading white space.
pub proof fn lemma_strip_whitespace_trimmed<T: Parser>(p: StripWhitespace<T>, s: Seq<char>)
    ensures
        p.spec_parse(trim_start(s)) == p.spec_parse(s),
{
    lemma_trim_start(s);
}

/// `System::` and a trace of the system read as a system record.
proof fn lemma_system_kind_trace(gap: Seq<char>, b: Seq<char>, r: Seq<char>, w: SpecSystemLogTraceKind)
    requires
        is_blank(gap),
        b.len() > 0,
        b[0] == 'T',
        SystemLogTraceKind::spec_parser().spec_parse(b) == Ok::<(Seq<char>, SpecSystemLogTraceKind), ()>((r, w)),
        trim_start(r) == r,
    ensures
        SystemLogKind::spec_parser().spec_parse(gap + "System::"@ + b) == Ok::<
            (Seq<char>, SpecSystemLogKind),
            (),
        >((r, SpecSystemLogKind::Trace(w))),
{
    reveal_strlit("System::");
    let s1 = "System::"@ + b;
    assert(gap + "System::"@ + b =~= gap + s1);
    lemma_trim_start_gap(gap, s1);
    assert(s1[0] == 'S');
    lemma_trim_start_none(s1);
    let alt = Alt {
        parser: (
            Mapped { parser: SystemLogTraceKind::spec_parser(), map: ToSystemTrace },
            Mapped { parser: SystemLogErrorKind::spec_parser(), map: ToSystemErrorRecord },
        ),
    };
    lemma_tag_then("System::", alt, b);
}

/// `System::` and an error of the system read as a system record.
proof fn lemma_system_kind_error(gap: Seq<char>, b: Seq<char>, r: Seq<char>, w: SpecSystemLogErrorKind)
    requires
        is_blank(gap),
        b.len() > 0,
        b[0] == 'E',
        SystemLogErrorKind::spec_parser().spec_parse(b) == Ok::<(Seq<char>, SpecSystemLogErrorKind), ()>((r, w)),
        trim_start(r) == r,
    ensures
        SystemLogKind::spec_parser().spec_parse(gap + "System::"@ + b) == Ok::<
            (Seq<char>, SpecSystemLogKind),
            (),
        >((r, SpecSystemLogKind::Error(w))),
{
    reveal_strlit("System::");
    reveal_strlit("Trace");
    let s1 = "System::"@ + b;
    assert(gap + "System::"@ + b =~= gap + s1);
    lemma_trim_start_gap(gap, s1);
    assert(s1[0] == 'S');
    lemma_trim_start_none(s1);
    let alt = Alt {
        parser: (
            Mapped { parser: SystemLogTraceKind::spec_parser(), map: ToSystemTrace },
            Mapped { parser: SystemLogErrorKind::spec_parser(), map: ToSystemErrorRecord },
        ),
    };
    lemma_tag_then("System::", alt, b);
    lemma_tag_refuses("Trace", b);
}

/// `App::` and an error of the application read as an application record.
proof fn lemma_app_kind_error(gap: Seq<char>, b: Seq<char>, r: Seq<char>, w: SpecAppLogErrorKind)
    requires
        is_blank(gap),
        b.len() > 0,
        b[0] == 'E',
        AppLogErrorKind::spec_parser().spec_parse(b) == Ok::<(Seq<char>, SpecAppLogErrorKind), ()>((r, w)),
        trim_start(r) == r,
    ensures
        AppLogKind::spec_parser().spec_parse(gap + "App::"@ + b) == Ok::<
            (Seq<char>, SpecAppLogKind),
            (),
        >((r, SpecAppLogKind::Error(w))),
{
    reveal_strlit("App::");
    reveal_strlit("Trace");
    reveal_strlit("Error");
    let s1 = "App::"@ + b;
    assert(gap + "App::"@ + b =~= gap + s1);
    lemma_trim_start_gap(gap, s1);
    assert(s1[0] == 'A');
    lemma_trim_start_none(s1);
    let alt = Alt {
        parser: (
            Mapped { parser: AppLogErrorKind::spec_parser(), map: ToAppError },
            Mapped { parser: AppLogTraceKind::spec_parser(), map: ToAppTrace },
            Mapped { parser: AppLogJournalKind::spec_parser(), map: ToAppJournal },
        ),
    };
    lemma_tag_then("App::", alt, b);

}

/// `App::` and a trace of the application read as an application record.
proof fn lemma_app_kind_trace(gap: Seq<char>, b: Seq<char>, r: Seq<char>, w: SpecAppLogTraceKind)
    requires
        is_blank(gap),
        b.len() > 0,
        b[0] == 'T',
        AppLogTraceKind::spec_parser().spec_parse(b) == Ok::<(Seq<char>, SpecAppLogTraceKind), ()>((r, w)),
        trim_start(r) == r,
    ensures
        AppLogKind::spec_parser().spec_parse(gap + "App::"@ + b) == Ok::<
            (Seq<char>, SpecAppLogKind),
            (),
        >((r, SpecAppLogKind::Trace(w))),
{
    reveal_strlit("App::");
    reveal_strlit("Trace");
    reveal_strlit("Error");
    let s1 = "App::"@ + b;
    assert(gap + "App::"@ + b =~= gap + s1);
    lemma_trim_start_gap(gap, s1);
    assert(s1[0] == 'A');
    lemma_trim_start_none(s1);
    let alt = Alt {
        parser: (
            Mapped { parser: AppLogErrorKind::spec_parser(), map: ToAppError },
            Mapped { parser: AppLogTraceKind::spec_parser(), map: ToAppTrace },
            Mapped { parser: AppLogJournalKind::spec_parser(), map: ToAppJournal },
        ),
    };
    lemma_tag_then("App::", alt, b);
    lemma_tag_refuses("Error", b);
}

/// `App::` and a journal event of the application read as an application record.
#[verifier::rlimit(60)]
proof fn lemma_app_kind_journal(gap: Seq<char>, b: Seq<char>, r: Seq<char>, w: SpecAppLogJournalKind)
    requires
        is_blank(gap),
        b.len() > 0,
        b[0] == 'J',
        AppLogJournalKind::spec_parser().spec_parse(b) == Ok::<(Seq<char>, SpecAppLogJournalKind), ()>((r, w)),
    ensures
        AppLogKind::spec_parser().spec_parse(gap + "App::"@ + b) == Ok::<
            (Seq<char>, SpecAppLogKind),
            (),
        >((trim_start(r), SpecAppLogKind::Journal(w))),
{
    reveal_strlit("App::");
    reveal_strlit("Trace");
    reveal_strlit("Error");
    let s1 = "App::"@ + b;
    assert(gap + "App::"@ + b =~= gap + s1);
    lemma_trim_start_gap(gap, s1);
    assert(s1[0] == 'A');
    lemma_trim_start_none(s1);
    let alt = Alt {
        parser: (
            Mapped { parser: AppLogErrorKind::spec_parser(), map: ToAppError },
            Mapped { parser: AppLogTraceKind::spec_parser(), map: ToAppTrace },
            Mapped { parser: AppLogJournalKind::spec_parser(), map: ToAppJournal },
        ),
    };
    lemma_tag_then("App::", alt, b);
    lemma_tag_refuses("Error", b);
    lemma_tag_refuses("Trace", b);
}

/// A system record reads as a log record.
proof fn lemma_log_kind_system(x: Seq<char>, r: Seq<char>, v: SpecSystemLogKind)
    requires
        SystemLogKind::spec_parser().spec_parse(x) == Ok::<(Seq<char>, SpecSystemLogKind), ()>((r, v)),
        trim_start(r) == r,
    ensures
        LogKind::spec_parser().spec_parse(x) == Ok::<(Seq<char>, SpecLogKind), ()>(
            (r, SpecLogKind::System(v)),
        ),
{
    lemma_strip_whitespace_trimmed(SystemLogKind::spec_parser(), x);
}

/// An application record, which starts with `A` after white space, reads as
/// a log record.
proof fn lemma_log_kind_app(x: Seq<char>, r: Seq<char>, v: SpecAppLogKind)
    requires
        AppLogKind::spec_parser().spec_parse(x) == Ok::<(Seq<char>, SpecAppLogKind), ()>((r, v)),
        trim_start(r) == r,
        trim_start(x).len() > 0,
        trim_start(x)[0] == 'A',
    ensures
        LogKind::spec_parser().spec_parse(x) == Ok::<(Seq<char>, SpecLogKind), ()>(
            (r, SpecLogKind::App(v)),
        ),
{
    reveal_strlit("System::");
    lemma_strip_whitespace_trimmed(AppLogKind::spec_parser(), x);
    lemma_trim_start(x);
    lemma_tag_refuses("System::", trim_start(x));
}

} // verus!

verus! {

/// A response trace of the system, written `System::Trace GetResponse` and
/// a text quoted by [`quote`](crate::parser::combinators::quote) (white space
/// allowed before the record and around the record's tag), parses back to
/// that record carrying that text; what follows loses its leading white space.
#[verifier::rlimit(60)]
pub proof fn lemma_system_get_response_reads(
    gap0: Seq<char>,
    gap1: Seq<char>,
    gap2: Seq<char>,
    t: Seq<char>,
    rest: Seq<char>,
)
    requires
        is_blank(gap0),
        is_blank(gap1),
        is_blank(gap2),
    ensures
        LogKind::spec_parser().spec_parse(
            gap0 + "System::"@ + "Trace"@ + gap1 + "GetResponse"@ + gap2 + spec_quote(t) + rest,
        ) == Ok::<(Seq<char>, SpecLogKind), ()>(
            (
                trim_start(rest),
                SpecLogKind::System(SpecSystemLogKind::Trace(SpecSystemLogTraceKind::GetResponse(t))),
            ),
        ),
{
    reveal_strlit("System::");
    reveal_strlit("Trace");
    reveal_strlit("SendRequest");
    reveal_strlit("GetResponse");
    let b = "Trace"@ + gap1 + "GetResponse"@ + gap2 + spec_quote(t) + rest;
    let x = gap0 + "System::"@ + b;
    assert(gap0 + "System::"@ + "Trace"@ + gap1 + "GetResponse"@ + gap2 + spec_quote(t) + rest =~= x);
    lemma_kind_reads("Trace", "SendRequest", ToSystemSendRequest, "GetResponse", ToSystemGetResponse, true, gap1, gap2, t, rest);
    lemma_trim_start(rest);
    assert(b[0] == 'T');
    lemma_system_kind_trace(gap0, b, trim_start(rest), SpecSystemLogTraceKind::GetResponse(t));
    lemma_log_kind_system(x, trim_start(rest), SpecSystemLogKind::Trace(SpecSystemLogTraceKind::GetResponse(t)));
}

/// A network error of the system, written `System::Error NetworkError` and
/// a text quoted by [`quote`](crate::parser::combinators::quote) (white space
/// allowed before the record and around the record's tag), parses back to
/// that record carrying that text; what follows loses its leading white space.
#[verifier::rlimit(60)]
pub proof fn lemma_system_network_error_reads(
    gap0: Seq<char>,
    gap1: Seq<char>,
    gap2: Seq<char>,
    t: Seq<char>,
    rest: Seq<char>,
)
    requires
        is_blank(gap0),
        is_blank(gap1),
        is_blank(gap2),
    ensures
        LogKind::spec_parser().spec_parse(
            gap0 + "System::"@ + "Error"@ + gap1 + "NetworkError"@ + gap2 + spec_quote(t) + rest,
        ) == Ok::<(Seq<char>, SpecLogKind), ()>(
            (
                trim_start(rest),
                SpecLogKind::System(SpecSystemLogKind::Error(SpecSystemLogErrorKind::NetworkError(t))),
            ),
        ),
{
    reveal_strlit("System::");
    reveal_strlit("Error");
    reveal_strlit("NetworkError");
    reveal_strlit("AccessDenied");
    let b = "Error"@ + gap1 + "NetworkError"@ + gap2 + spec_quote(t) + rest;
    let x = gap0 + "System::"@ + b;
    assert(gap0 + "System::"@ + "Error"@ + gap1 + "NetworkError"@ + gap2 + spec_quote(t) + rest =~= x);
    lemma_kind_reads("Error", "NetworkError", ToNetworkError, "AccessDenied", ToAccessDenied, false, gap1, gap2, t, rest);
    lemma_trim_start(rest);
    assert(b[0] == 'E');
    lemma_system_kind_error(gap0, b, trim_start(rest), SpecSystemLogErrorKind::NetworkError(t));
    lemma_log_kind_system(x, trim_start(rest), SpecSystemLogKind::Error(SpecSystemLogErrorKind::NetworkError(t)));
}

/// A denied access of the system, written `System::Error AccessDenied` and
/// a text quoted by [`quote`](crate::parser::combinators::quote) (white space
/// allowed before the record and around the record's tag), parses back to
/// that record carrying that text; what follows loses its leading white space.
#[verifier::rlimit(60)]
pub proof fn lemma_system_access_denied_reads(
    gap0: Seq<char>,
    gap1: Seq<char>,
    gap2: Seq<char>,
    t: Seq<char>,
    rest: Seq<char>,
)
    requires
        is_blank(gap0),
        is_blank(gap1),
        is_blank(gap2),
    ensures
        LogKind::spec_parser().spec_parse(
            gap0 + "System::"@ + "Error"@ + gap1 + "AccessDenied"@ + gap2 + spec_quote(t) + rest,
        ) == Ok::<(Seq<char>, SpecLogKind), ()>(
            (
                trim_start(rest),
                SpecLogKind::System(SpecSystemLogKind::Error(SpecSystemLogErrorKind::AccessDenied(t))),
            ),
        ),
{
    reveal_strlit("System::");
    reveal_strlit("Error");
    reveal_strlit("NetworkError");
    reveal_strlit("AccessDenied");
    let b = "Error"@ + gap1 + "AccessDenied"@ + gap2 + spec_quote(t) + rest;
    let x = gap0 + "System::"@ + b;
    assert(gap0 + "System::"@ + "Error"@ + gap1 + "AccessDenied"@ + gap2 + spec_quote(t) + rest =~= x);
    lemma_kind_reads("Error", "NetworkError", ToNetworkError, "AccessDenied", ToAccessDenied, true, gap1, gap2, t, rest);
    lemma_trim_start(rest);
    assert(b[0] == 'E');
    lemma_system_kind_error(gap0, b, trim_start(rest), SpecSystemLogErrorKind::AccessDenied(t));
    lemma_log_kind_system(x, trim_start(rest), SpecSystemLogKind::Error(SpecSystemLogErrorKind::AccessDenied(t)));
}

/// A lack of something in the application, written `App::Error LackOf` and
/// a text quoted by [`quote`](crate::parser::combinators::quote) (white space
/// allowed before the record and around the record's tag), parses back to
/// that record carrying that text; what follows loses its leading white space.
#[verifier::rlimit(60)]
pub proof fn lemma_app_lack_of_reads(
    gap0: Seq<char>,
    gap1: Seq<char>,
    gap2: Seq<char>,
    t: Seq<char>,
    rest: Seq<char>,
)
    requires
        is_blank(gap0),
        is_blank(gap1),
        is_blank(gap2),
    ensures
        LogKind::spec_parser().spec_parse(
            gap0 + "App::"@ + "Error"@ + gap1 + "LackOf"@ + gap2 + spec_quote(t) + rest,
        ) == Ok::<(Seq<char>, SpecLogKind), ()>(
            (
                trim_start(rest),
                SpecLogKind::App(SpecAppLogKind::Error(SpecAppLogErrorKind::LackOf(t))),
            ),
        ),
{
    reveal_strlit("App::");
    reveal_strlit("Error");
    reveal_strlit("LackOf");
    reveal_strlit("SystemError");
    let b = "Error"@ + gap1 + "LackOf"@ + gap2 + spec_quote(t) + rest;
    let x = gap0 + "App::"@ + b;
    assert(gap0 + "App::"@ + "Error"@ + gap1 + "LackOf"@ + gap2 + spec_quote(t) + rest =~= x);
    lemma_kind_reads("Error", "LackOf", ToLackOf, "SystemError", ToSystemError, false, gap1, gap2, t, rest);
    lemma_trim_start(rest);
    assert(b[0] == 'E');
    lemma_app_kind_error(gap0, b, trim_start(rest), SpecAppLogErrorKind::LackOf(t));
    lemma_trim_start_gap(gap0, "App::"@ + b);
    assert(("App::"@ + b)[0] == 'A');
    lemma_trim_start_none("App::"@ + b);
    lemma_log_kind_app(x, trim_start(rest), SpecAppLogKind::Error(SpecAppLogErrorKind::LackOf(t)));
}

/// A system error seen by the application, written `App::Error SystemError` and
/// a text quoted by [`quote`](crate::parser::combinators::quote) (white space
/// allowed before the record and around the record's tag), parses back to
/// that record carrying that text; what follows loses its leading white space.
#[verifier::rlimit(60)]
pub proof fn lemma_app_system_error_reads(
    gap0: Seq<char>,
    gap1: Seq<char>,
    gap2: Seq<char>,
    t: Seq<char>,
    rest: Seq<char>,
)
    requires
        is_blank(gap0),
        is_blank(gap1),
        is_blank(gap2),
    ensures
        LogKind::spec_parser().spec_parse(
            gap0 + "App::"@ + "Error"@ + gap1 + "SystemError"@ + gap2 + spec_quote(t) + rest,
        ) == Ok::<(Seq<char>, SpecLogKind), ()>(
            (
                trim_start(rest),
                SpecLogKind::App(SpecAppLogKind::Error(SpecAppLogErrorKind::SystemError(t))),
            ),
        ),
{
    reveal_strlit("App::");
    reveal_strlit("Error");
    reveal_strlit("LackOf");
    reveal_strlit("SystemError");
    let b = "Error"@ + gap1 + "SystemError"@ + gap2 + spec_quote(t) + rest;
    let x = gap0 + "App::"@ + b;
    assert(gap0 + "App::"@ + "Error"@ + gap1 + "SystemError"@ + gap2 + spec_quote(t) + rest =~= x);
    lemma_kind_reads("Error", "LackOf", ToLackOf, "SystemError", ToSystemError, true, gap1, gap2, t, rest);
    lemma_trim_start(rest);
    assert(b[0] == 'E');
    lemma_app_kind_error(gap0, b, trim_start(rest), SpecAppLogErrorKind::SystemError(t));
    lemma_trim_start_gap(gap0, "App::"@ + b);
    assert(("App::"@ + b)[0] == 'A');
    lemma_trim_start_none("App::"@ + b);
    lemma_log_kind_app(x, trim_start(rest), SpecAppLogKind::Error(SpecAppLogErrorKind::SystemError(t)));
}

/// A request trace of the application, written `App::Trace SendRequest` and
/// a text quoted by [`quote`](crate::parser::combinators::quote) (white space
/// allowed before the record and around the record's tag), parses back to
/// that record carrying that text; what follows loses its leading white space.
#[verifier::rlimit(60)]
pub proof fn lemma_app_send_request_reads(
    gap0: Seq<char>,
    gap1: Seq<char>,
    gap2: Seq<char>,
    t: Seq<char>,
    rest: Seq<char>,
)
    requires
        is_blank(gap0),
        is_blank(gap1),
        is_blank(gap2),
    ensures
        LogKind::spec_parser().spec_parse(
            gap0 + "App::"@ + "Trace"@ + gap1 + "SendRequest"@ + gap2 + spec_quote(t) + rest,
        ) == Ok::<(Seq<char>, SpecLogKind), ()>(
            (
                trim_start(rest),
                SpecLogKind::App(SpecAppLogKind::Trace(SpecAppLogTraceKind::SendRequest(t))),
            ),
        ),
{
    reveal_strlit("App::");
    reveal_strlit("Trace");
    reveal_strlit("SendRequest");
    reveal_strlit("GetResponse");
    let b = "Trace"@ + gap1 + "SendRequest"@ + gap2 + spec_quote(t) + rest;
    let x = gap0 + "App::"@ + b;
    assert(gap0 + "App::"@ + "Trace"@ + gap1 + "SendRequest"@ + gap2 + spec_quote(t) + rest =~= x);
    lemma_kind_reads("Trace", "SendRequest", ToAppSendRequest, "GetResponse", ToAppGetResponse, false, gap1, gap2, t, rest);
    lemma_trim_start(rest);
    assert(b[0] == 'T');
    lemma_app_kind_trace(gap0, b, trim_start(rest), SpecAppLogTraceKind::SendRequest(t));
    lemma_trim_start_gap(gap0, "App::"@ + b);
    assert(("App::"@ + b)[0] == 'A');
    lemma_trim_start_none("App::"@ + b);
    lemma_log_kind_app(x, trim_start(rest), SpecAppLogKind::Trace(SpecAppLogTraceKind::SendRequest(t)));
}

/// A response trace of the application, written `App::Trace GetResponse` and
/// a text quoted by [`quote`](crate::parser::combinators::quote) (white space
/// allowed before the record and around the record's tag), parses back to
/// that record carrying that text; what follows loses its leading white space.
#[verifier::rlimit(60)]
pub proof fn lemma_app_get_response_reads(
    gap0: Seq<char>,
    gap1: Seq<char>,
    gap2: Seq<char>,
    t: Seq<char>,
    rest: Seq<char>,
)
    requires
        is_blank(gap0),
        is_blank(gap1),
        is_blank(gap2),
    ensures
        LogKind::spec_parser().spec_parse(
            gap0 + "App::"@ + "Trace"@ + gap1 + "GetResponse"@ + gap2 + spec_quote(t) + rest,
        ) == Ok::<(Seq<char>, SpecLogKind), ()>(
            (
                trim_start(rest),
                SpecLogKind::App(SpecAppLogKind::Trace(SpecAppLogTraceKind::GetResponse(t))),
            ),
        ),
{
    reveal_strlit("App::");
    reveal_strlit("Trace");
    reveal_strlit("SendRequest");
    reveal_strlit("GetResponse");
    let b = "Trace"@ + gap1 + "GetResponse"@ + gap2 + spec_quote(t) + rest;
    let x = gap0 + "App::"@ + b;
    assert(gap0 + "App::"@ + "Trace"@ + gap1 + "GetResponse"@ + gap2 + spec_quote(t) + rest =~= x);
    lemma_kind_reads("Trace", "SendRequest", ToAppSendRequest, "GetResponse", ToAppGetResponse, true, gap1, gap2, t, rest);
    lemma_trim_start(rest);
    assert(b[0] == 'T');
    lemma_app_kind_trace(gap0, b, trim_start(rest), SpecAppLogTraceKind::GetResponse(t));
    lemma_trim_start_gap(gap0, "App::"@ + b);
    assert(("App::"@ + b)[0] == 'A');
    lemma_trim_start_none("App::"@ + b);
    lemma_log_kind_app(x, trim_start(rest), SpecAppLogKind::Trace(SpecAppLogTraceKind::GetResponse(t)));
}

} // verus!

verus! {

// ---------------------------------------------------------------------------
// Laws of the journal parsers
// ---------------------------------------------------------------------------

/// The pair `"key":"value",` with a quoted text value.
pub open spec fn text_pair(key: Seq<char>, value: Seq<char>) -> Seq<char> {
    spec_quote(key) + seq![':'] + spec_quote(value) + seq![',']
}

/// The pair `"key":digits,` with a number value.
pub open spec fn number_pair(key: Seq<char>, digits: Seq<char>) -> Seq<char> {
    spec_quote(key) + seq![':'] + digits + seq![',']
}

/// Decimal digits only, writing a positive `u32`.
pub open spec fn positive_decimal(ds: Seq<char>) -> bool {
    &&& ds.len() > 0
    &&& forall|k: int| 0 <= k < ds.len() ==> '0' <= #[trigger] ds[k] <= '9'
    &&& 0 < digits_value(ds, 10) <= u32::MAX
}

/// A key with no quote and no backslash.
pub open spec fn plain_key(key: Seq<char>) -> bool {
    &&& key.len() > 0
    &&& forall|k: int| 0 <= k < key.len() ==> key[k] != '"' && key[k] != '\\'
}

/// The [`KeyValue`] of a text reads a text pair of its key and leaves what
/// follows without its leading white space.
pub proof fn lemma_text_pair_reads(key: &'static str, value: Seq<char>, tail: Seq<char>)
    requires
        plain_key(key@),
    ensures
        spec_key_value(key, Unquote).spec_parse(text_pair(key@, value) + tail) == Ok::<
            (Seq<char>, Seq<char>),
            (),
        >((trim_start(tail), value)),
{
    let q = spec_quote(value);
    lemma_unquote_quote(value, seq![','] + tail);
    assert(q + seq![','] + tail =~= q + (seq![','] + tail));
    assert(q[0] == '"');
    lemma_key_value_reads(key, Unquote, q, value, tail);
    assert(text_pair(key@, value) + tail =~= spec_quote(key@) + seq![':'] + q + seq![','] + tail);
}

/// The [`KeyValue`] of a number reads a number pair of its key and leaves
/// what follows without its leading white space.
pub proof fn lemma_number_pair_reads(key: &'static str, ds: Seq<char>, tail: Seq<char>)
    requires
        plain_key(key@),
        positive_decimal(ds),
    ensures
        spec_key_value(key, U32).spec_parse(number_pair(key@, ds) + tail) == Ok::<
            (Seq<char>, u32),
            (),
        >((trim_start(tail), digits_value(ds, 10) as u32)),
{
    assert forall|k: int| 0 <= k < ds.len() implies is_ascii_digit(ds[k]) by {
        assert('0' <= ds[k] <= '9');
    }
    lemma_u32_reads_decimal(ds, seq![','] + tail);
    assert(ds + seq![','] + tail =~= ds + (seq![','] + tail));
    assert(ds[0] == ds[0]);
    assert(!is_whitespace(ds[0])) by {
        assert('0' <= ds[0] <= '9');
    }
    lemma_key_value_reads(key, U32, ds, digits_value(ds, 10) as u32, tail);
    assert(number_pair(key@, ds) + tail =~= spec_quote(key@) + seq![':'] + ds + seq![','] + tail);
}

/// A [`KeyValue`] refuses a pair whose key is another plain key.
pub proof fn lemma_pair_refuses<T: Parser>(
    key: &'static str,
    p: T,
    other: Seq<char>,
    tail: Seq<char>,
)
    requires
        plain_key(key@),
        plain_key(other),
        other != key@,
    ensures
        spec_key_value(key, p).spec_parse(spec_quote(other) + tail) is Err,
{
    let s = spec_quote(other) + tail;
    assert(s[0] == '"');
    lemma_trim_start_none(s);
    lemma_quoted_tag_reads(key, other, tail);
}

/// A [`Braced`] reads white space, its tag, `{`, what its inner parser reads
/// and `}`, and converts the value.
pub proof fn lemma_braced_reads<T: Parser, M: Mapping<T::Dest>>(
    text: &'static str,
    inner: T,
    m: M,
    lead: Seq<char>,
    body: Seq<char>,
    rest: Seq<char>,
    v: <T::Dest as DeepView>::V,
)
    requires
        text@.len() > 0,
        !is_whitespace(text@[0]),
        is_blank(lead),
        inner.spec_parse(body) == Ok::<(Seq<char>, <T::Dest as DeepView>::V), ()>(
            (seq!['}'] + rest, v),
        ),
    ensures
        spec_braced(text, inner, m).spec_parse(lead + text@ + seq!['{'] + body) == Ok::<
            (Seq<char>, <M::Out as DeepView>::V),
            (),
        >((rest, m.spec_apply(v))),
{
    reveal_strlit("{");
    reveal_strlit("}");
    let after = text@ + (seq!['{'] + body);
    assert(lead + text@ + seq!['{'] + body =~= lead + after);
    lemma_trim_start_gap(lead, after);
    assert(after[0] == text@[0]);
    lemma_trim_start_none(after);
    lemma_tag_reads(text, after, seq!['{'] + body);
    assert((seq!['{'] + body)[0] == '{');
    lemma_trim_start_none(seq!['{'] + body);
    lemma_tag_reads("{", seq!['{'] + body, body);
    assert("{"@ =~= seq!['{']);
    lemma_tag_reads("}", seq!['}'] + rest, rest);
    assert("}"@ =~= seq!['}']);
}

/// A [`Braced`] refuses a text that, after white space, does not start with
/// its tag's first character.
pub proof fn lemma_braced_refuses<T: Parser, M: Mapping<T::Dest>>(
    text: &'static str,
    inner: T,
    m: M,
    s: Seq<char>,
)
    requires
        text@.len() > 0,
        trim_start(s).len() == 0 || trim_start(s)[0] != text@[0],
    ensures
        spec_braced(text, inner, m).spec_parse(s) is Err,
{
    lemma_tag_refuses(text, trim_start(s));
}

} // verus!

verus! {

/// The keys of the journal's pairs hold no quote and no backslash, and are
/// all different.
pub proof fn lemma_journal_keys()
    ensures
        plain_key("user_id"@),
        plain_key("authorized_capital"@),
        plain_key("asset_id"@),
        plain_key("liquidity"@),
        "user_id"@ != "authorized_capital"@,
        "user_id"@ != "asset_id"@,
        "user_id"@ != "liquidity"@,
        "asset_id"@ != "liquidity"@,
{
    reveal_strlit("user_id");
    reveal_strlit("authorized_capital");
    reveal_strlit("asset_id");
    reveal_strlit("liquidity");
}

/// `Journal`, white space, `CreateUser`, `{`, what the parser of its fields reads and
/// `}`, read as that journal event.
#[verifier::rlimit(60)]
proof fn lemma_journal_create(lead: Seq<char>, body: Seq<char>, r: Seq<char>, v: (Seq<char>, u32))
    requires
        is_blank(lead),
        (Permutation { parsers: (spec_key_value("user_id", Unquote), spec_key_value("authorized_capital", U32)) }).spec_parse(body) == Ok::<(Seq<char>, (Seq<char>, u32)), ()>((seq!['}'] + r, v)),
    ensures
        AppLogJournalKind::spec_parser().spec_parse("Journal"@ + lead + "CreateUser"@ + seq!['{'] + body)
            == Ok::<(Seq<char>, SpecAppLogJournalKind), ()>((r, ToCreateUser.spec_apply(v))),
{
    reveal_strlit("Journal");
    reveal_strlit("CreateUser");
    reveal_strlit("DeleteUser");
    reveal_strlit("RegisterAsset");
    reveal_strlit("UnregisterAsset");
    let s = lead + "CreateUser"@ + seq!['{'] + body;
    assert("Journal"@ + lead + "CreateUser"@ + seq!['{'] + body =~= "Journal"@ + s);
    let after = "CreateUser"@ + (seq!['{'] + body);
    assert(s =~= lead + after);
    lemma_trim_start_gap(lead, after);
    assert(after[0] == 'C');
    lemma_trim_start_none(after);
    lemma_tag_then("Journal", AppLogJournalKind::spec_parser().dest_parser, s);

    lemma_braced_reads("CreateUser", Permutation { parsers: (spec_key_value("user_id", Unquote), spec_key_value("authorized_capital", U32)) }, ToCreateUser, lead, body, r, v);
}

/// `Journal`, white space, `DeleteUser`, `{`, what the parser of its fields reads and
/// `}`, read as that journal event.
#[verifier::rlimit(60)]
proof fn lemma_journal_delete(lead: Seq<char>, body: Seq<char>, r: Seq<char>, v: Seq<char>)
    requires
        is_blank(lead),
        (spec_key_value("user_id", Unquote)).spec_parse(body) == Ok::<(Seq<char>, Seq<char>), ()>((seq!['}'] + r, v)),
    ensures
        AppLogJournalKind::spec_parser().spec_parse("Journal"@ + lead + "DeleteUser"@ + seq!['{'] + body)
            == Ok::<(Seq<char>, SpecAppLogJournalKind), ()>((r, ToDeleteUser.spec_apply(v))),
{
    reveal_strlit("Journal");
    reveal_strlit("CreateUser");
    reveal_strlit("DeleteUser");
    reveal_strlit("RegisterAsset");
    reveal_strlit("UnregisterAsset");
    let s = lead + "DeleteUser"@ + seq!['{'] + body;
    assert("Journal"@ + lead + "DeleteUser"@ + seq!['{'] + body =~= "Journal"@ + s);
    let after = "DeleteUser"@ + (seq!['{'] + body);
    assert(s =~= lead + after);
    lemma_trim_start_gap(lead, after);
    assert(after[0] == 'D');
    lemma_trim_start_none(after);
    lemma_tag_then("Journal", AppLogJournalKind::spec_parser().dest_parser, s);
    lemma_braced_refuses("CreateUser", Permutation { parsers: (spec_key_value("user_id", Unquote), spec_key_value("authorized_capital", U32)) }, ToCreateUser, s);
    lemma_braced_reads("DeleteUser", spec_key_value("user_id", Unquote), ToDeleteUser, lead, body, r, v);
}

/// `Journal`, white space, `RegisterAsset`, `{`, what the parser of its fields reads and
/// `}`, read as that journal event.
#[verifier::rlimit(60)]
proof fn lemma_journal_register(lead: Seq<char>, body: Seq<char>, r: Seq<char>, v: (Seq<char>, Seq<char>, u32))
    requires
        is_blank(lead),
        (Permutation { parsers: (spec_key_value("asset_id", Unquote), spec_key_value("user_id", Unquote), spec_key_value("liquidity", U32)) }).spec_parse(body) == Ok::<(Seq<char>, (Seq<char>, Seq<char>, u32)), ()>((seq!['}'] + r, v)),
    ensures
        AppLogJournalKind::spec_parser().spec_parse("Journal"@ + lead + "RegisterAsset"@ + seq!['{'] + body)
            == Ok::<(Seq<char>, SpecAppLogJournalKind), ()>((r, ToRegisterAsset.spec_apply(v))),
{
    reveal_strlit("Journal");
    reveal_strlit("CreateUser");
    reveal_strlit("DeleteUser");
    reveal_strlit("RegisterAsset");
    reveal_strlit("UnregisterAsset");
    let s = lead + "RegisterAsset"@ + seq!['{'] + body;
    assert("Journal"@ + lead + "RegisterAsset"@ + seq!['{'] + body =~= "Journal"@ + s);
    let after = "RegisterAsset"@ + (seq!['{'] + body);
    assert(s =~= lead + after);
    lemma_trim_start_gap(lead, after);
    assert(after[0] == 'R');
    lemma_trim_start_none(after);
    lemma_tag_then("Journal", AppLogJournalKind::spec_parser().dest_parser, s);
    lemma_braced_refuses("CreateUser", Permutation { parsers: (spec_key_value("user_id", Unquote), spec_key_value("authorized_capital", U32)) }, ToCreateUser, s);
    lemma_braced_refuses("DeleteUser", spec_key_value("user_id", Unquote), ToDeleteUser, s);
    lemma_braced_reads("RegisterAsset", Permutation { parsers: (spec_key_value("asset_id", Unquote), spec_key_value("user_id", Unquote), spec_key_value("liquidity", U32)) }, ToRegisterAsset, lead, body, r, v);
}

/// `Journal`, white space, `UnregisterAsset`, `{`, what the parser of its fields reads and
/// `}`, read as that journal event.
#[verifier::rlimit(60)]
proof fn lemma_journal_unregister(lead: Seq<char>, body: Seq<char>, r: Seq<char>, v: (Seq<char>, Seq<char>))
    requires
        is_blank(lead),
        (Permutation { parsers: (spec_key_value("asset_id", Unquote), spec_key_value("user_id", Unquote)) }).spec_parse(body) == Ok::<(Seq<char>, (Seq<char>, Seq<char>)), ()>((seq!['}'] + r, v)),
    ensures
        AppLogJournalKind::spec_parser().spec_parse("Journal"@ + lead + "UnregisterAsset"@ + seq!['{'] + body)
            == Ok::<(Seq<char>, SpecAppLogJournalKind), ()>((r, ToUnregisterAsset.spec_apply(v))),
{
    reveal_strlit("Journal");
    reveal_strlit("CreateUser");
    reveal_strlit("DeleteUser");
    reveal_strlit("RegisterAsset");
    reveal_strlit("UnregisterAsset");
    let s = lead + "UnregisterAsset"@ + seq!['{'] + body;
    assert("Journal"@ + lead + "UnregisterAsset"@ + seq!['{'] + body =~= "Journal"@ + s);
    let after = "UnregisterAsset"@ + (seq!['{'] + body);
    assert(s =~= lead + after);
    lemma_trim_start_gap(lead, after);
    assert(after[0] == 'U');
    lemma_trim_start_none(after);
    lemma_tag_then("Journal", AppLogJournalKind::spec_parser().dest_parser, s);
    lemma_braced_refuses("CreateUser", Permutation { parsers: (spec_key_value("user_id", Unquote), spec_key_value("authorized_capital", U32)) }, ToCreateUser, s);
    lemma_braced_refuses("DeleteUser", spec_key_value("user_id", Unquote), ToDeleteUser, s);
    lemma_braced_refuses("RegisterAsset", Permutation { parsers: (spec_key_value("asset_id", Unquote), spec_key_value("user_id", Unquote), spec_key_value("liquidity", U32)) }, ToRegisterAsset, s);
    lemma_braced_reads("UnregisterAsset", Permutation { parsers: (spec_key_value("asset_id", Unquote), spec_key_value("user_id", Unquote)) }, ToUnregisterAsset, lead, body, r, v);
}

} // verus!

verus! {

/// A user's deletion, written `App::Journal DeleteUser{"user_id":"<id>",}`
/// with the id quoted by [`quote`](crate::parser::combinators::quote) (white
/// space allowed before the record, before `DeleteUser` and before `}`),
/// parses back to the deletion of that user; what follows loses its leading
/// white space.
#[verifier::rlimit(60)]
pub proof fn lemma_journal_delete_user_reads(
    gap0: Seq<char>,
    gap1: Seq<char>,
    gap2: Seq<char>,
    id: Seq<char>,
    rest: Seq<char>,
)
    requires
        is_blank(gap0),
        is_blank(gap1),
        is_blank(gap2),
    ensures
        ({
            let body = text_pair("user_id"@, id) + gap2 + seq!['}'] + rest;
            LogKind::spec_parser().spec_parse(gap0 + "App::"@ + "Journal"@ + gap1 + "DeleteUser"@ + seq!['{'] + body) == Ok::<
                (Seq<char>, SpecLogKind),
                (),
            >(
                (
                    trim_start(rest),
                    SpecLogKind::App(
                        SpecAppLogKind::Journal(SpecAppLogJournalKind::DeleteUser { user_id: id }),
                    ),
                ),
            )
        }),
{
    lemma_journal_keys();
    let body = text_pair("user_id"@, id) + gap2 + seq!['}'] + rest;
    let tail = gap2 + (seq!['}'] + rest);
    assert(body =~= text_pair("user_id"@, id) + tail);
    lemma_text_pair_reads("user_id", id, tail);
    lemma_trim_start_gap(gap2, seq!['}'] + rest);
    lemma_trim_start_none(seq!['}'] + rest);
    lemma_journal_delete(gap1, body, rest, id);
    reveal_strlit("Journal");
    reveal_strlit("App::");
    let b = "Journal"@ + gap1 + "DeleteUser"@ + seq!['{'] + body;
    let x = gap0 + "App::"@ + b;
    assert(gap0 + "App::"@ + "Journal"@ + gap1 + "DeleteUser"@ + seq!['{'] + body =~= x);
    assert(b[0] == 'J');
    lemma_app_kind_journal(gap0, b, rest, SpecAppLogJournalKind::DeleteUser { user_id: id });
    lemma_trim_start(rest);
    lemma_trim_start_gap(gap0, "App::"@ + b);
    assert(("App::"@ + b)[0] == 'A');
    lemma_trim_start_none("App::"@ + b);
    lemma_log_kind_app(x, trim_start(rest), SpecAppLogKind::Journal(SpecAppLogJournalKind::DeleteUser { user_id: id }));
}

/// The fields of a user's creation (order 0: the id first; 1: the capital first) in the order `order`.
pub open spec fn create_user_fields(order: int, id: Seq<char>, ds: Seq<char>, rest: Seq<char>) -> Seq<char> {
    if order == 0 { text_pair("user_id"@, id) + number_pair("authorized_capital"@, ds) + seq!['}'] + rest } else { number_pair("authorized_capital"@, ds) + text_pair("user_id"@, id) + seq!['}'] + rest }
}

/// The fields of a user's creation (order 0: the id first; 1: the capital first) in the order `0` read as their values.
#[verifier::rlimit(60)]
proof fn lemma_create_user_order_0(id: Seq<char>, ds: Seq<char>, rest: Seq<char>)
    requires
        positive_decimal(ds),
    ensures
        (Permutation { parsers: (spec_key_value("user_id", Unquote), spec_key_value("authorized_capital", U32)) }).spec_parse(create_user_fields(0, id, ds, rest)) == Ok::<(Seq<char>, (Seq<char>, u32)), ()>(
            (seq!['}'] + rest, (id, digits_value(ds, 10) as u32)),
        ),
{
    lemma_journal_keys();
    let body = text_pair("user_id"@, id) + number_pair("authorized_capital"@, ds) + seq!['}'] + rest;
    let p0 = body;
    let p1 = number_pair("authorized_capital"@, ds) + seq!['}'] + rest;
    assert(p0 =~= text_pair("user_id"@, id) + p1);
    assert(p1[0] == '"');
    lemma_trim_start_none(p1);
    lemma_text_pair_reads("user_id", id, p1);
    let p2 = seq!['}'] + rest;
    assert(p1 =~= number_pair("authorized_capital"@, ds) + p2);
    assert(p2[0] == '}');
    lemma_trim_start_none(p2);
    lemma_number_pair_reads("authorized_capital", ds, p2);
    assert(p0 =~= spec_quote("user_id"@) + p0.skip(spec_quote("user_id"@).len() as int));
    lemma_pair_refuses("authorized_capital", U32, "user_id"@, p0.skip(spec_quote("user_id"@).len() as int));
    lemma_permutation2_in_order(Permutation { parsers: (spec_key_value("user_id", Unquote), spec_key_value("authorized_capital", U32)) }, body);
}

/// The fields of a user's creation (order 0: the id first; 1: the capital first) in the order `1` read as their values.
#[verifier::rlimit(60)]
proof fn lemma_create_user_order_1(id: Seq<char>, ds: Seq<char>, rest: Seq<char>)
    requires
        positive_decimal(ds),
    ensures
        (Permutation { parsers: (spec_key_value("user_id", Unquote), spec_key_value("authorized_capital", U32)) }).spec_parse(create_user_fields(1, id, ds, rest)) == Ok::<(Seq<char>, (Seq<char>, u32)), ()>(
            (seq!['}'] + rest, (id, digits_value(ds, 10) as u32)),
        ),
{
    lemma_journal_keys();
    let body = number_pair("authorized_capital"@, ds) + text_pair("user_id"@, id) + seq!['}'] + rest;
    let p0 = body;
    let p1 = text_pair("user_id"@, id) + seq!['}'] + rest;
    assert(p0 =~= number_pair("authorized_capital"@, ds) + p1);
    assert(p1[0] == '"');
    lemma_trim_start_none(p1);
    lemma_number_pair_reads("authorized_capital", ds, p1);
    let p2 = seq!['}'] + rest;
    assert(p1 =~= text_pair("user_id"@, id) + p2);
    assert(p2[0] == '}');
    lemma_trim_start_none(p2);
    lemma_text_pair_reads("user_id", id, p2);
    assert(p0 =~= spec_quote("authorized_capital"@) + p0.skip(spec_quote("authorized_capital"@).len() as int));
    lemma_pair_refuses("user_id", Unquote, "authorized_capital"@, p0.skip(spec_quote("authorized_capital"@).len() as int));
    lemma_permutation2_reversed(Permutation { parsers: (spec_key_value("user_id", Unquote), spec_key_value("authorized_capital", U32)) }, body);
}

/// A user's creation, written `App::Journal CreateUser{` with the pairs
/// `"user_id":"<id>",` (the id quoted by
/// [`quote`](crate::parser::combinators::quote)) and
/// `"authorized_capital":<n>,` in either order and `}` (white space allowed
/// before the record and before `CreateUser`), parses back to the creation of
/// that user with that capital; what follows loses its leading white space.
#[verifier::rlimit(60)]
pub proof fn lemma_journal_create_user_reads(
    order: int,
    gap0: Seq<char>,
    gap1: Seq<char>,
    id: Seq<char>, ds: Seq<char>,
    rest: Seq<char>,
)
    requires
        0 <= order < 2,
        is_blank(gap0),
        is_blank(gap1),
        positive_decimal(ds),
    ensures
        ({
            let body = create_user_fields(order, id, ds, rest);
            LogKind::spec_parser().spec_parse(gap0 + "App::"@ + "Journal"@ + gap1 + "CreateUser"@ + seq!['{'] + body) == Ok::<
                (Seq<char>, SpecLogKind),
                (),
            >((trim_start(rest), SpecLogKind::App(SpecAppLogKind::Journal(SpecAppLogJournalKind::CreateUser { user_id: id, authorized_capital: digits_value(ds, 10) as u32 }))))
        }),
{
    if order == 0 {
        lemma_create_user_order_0(id, ds, rest);
    } else if order == 1 {
        lemma_create_user_order_1(id, ds, rest);
    }
    let body = create_user_fields(order, id, ds, rest);
    lemma_journal_create(gap1, body, rest, (id, digits_value(ds, 10) as u32));
    reveal_strlit("Journal");
    reveal_strlit("App::");
    let b = "Journal"@ + gap1 + "CreateUser"@ + seq!['{'] + body;
    let x = gap0 + "App::"@ + b;
    assert(gap0 + "App::"@ + "Journal"@ + gap1 + "CreateUser"@ + seq!['{'] + body =~= x);
    assert(b[0] == 'J');
    lemma_app_kind_journal(gap0, b, rest, SpecAppLogJournalKind::CreateUser { user_id: id, authorized_capital: digits_value(ds, 10) as u32 });
    lemma_trim_start(rest);
    lemma_trim_start_gap(gap0, "App::"@ + b);
    assert(("App::"@ + b)[0] == 'A');
    lemma_trim_start_none("App::"@ + b);
    lemma_log_kind_app(x, trim_start(rest), SpecAppLogKind::Journal(SpecAppLogJournalKind::CreateUser { user_id: id, authorized_capital: digits_value(ds, 10) as u32 }));
}

/// The fields of an asset's unregistration (order 0: the asset first; 1: the user first) in the order `order`.
pub open spec fn unregister_asset_fields(order: int, asset: Seq<char>, user: Seq<char>, rest: Seq<char>) -> Seq<char> {
    if order == 0 { text_pair("asset_id"@, asset) + text_pair("user_id"@, user) + seq!['}'] + rest } else { text_pair("user_id"@, user) + text_pair("asset_id"@, asset) + seq!['}'] + rest }
}

/// The fields of an asset's unregistration (order 0: the asset first; 1: the user first) in the order `0` read as their values.
#[verifier::rlimit(60)]
proof fn lemma_unregister_asset_order_0(asset: Seq<char>, user: Seq<char>, rest: Seq<char>)
    requires
    ensures
        (Permutation { parsers: (spec_key_value("asset_id", Unquote), spec_key_value("user_id", Unquote)) }).spec_parse(unregister_asset_fields(0, asset, user, rest)) == Ok::<(Seq<char>, (Seq<char>, Seq<char>)), ()>(
            (seq!['}'] + rest, (asset, user)),
        ),
{
    lemma_journal_keys();
    let body = text_pair("asset_id"@, asset) + text_pair("user_id"@, user) + seq!['}'] + rest;
    let p0 = body;
    let p1 = text_pair("user_id"@, user) + seq!['}'] + rest;
    assert(p0 =~= text_pair("asset_id"@, asset) + p1);
    assert(p1[0] == '"');
    lemma_trim_start_none(p1);
    lemma_text_pair_reads("asset_id", asset, p1);
    let p2 = seq!['}'] + rest;
    assert(p1 =~= text_pair("user_id"@, user) + p2);
    assert(p2[0] == '}');
    lemma_trim_start_none(p2);
    lemma_text_pair_reads("user_id", user, p2);
    assert(p0 =~= spec_quote("asset_id"@) + p0.skip(spec_quote("asset_id"@).len() as int));
    lemma_pair_refuses("user_id", Unquote, "asset_id"@, p0.skip(spec_quote("asset_id"@).len() as int));
    lemma_permutation2_in_order(Permutation { parsers: (spec_key_value("asset_id", Unquote), spec_key_value("user_id", Unquote)) }, body);
}

/// The fields of an asset's unregistration (order 0: the asset first; 1: the user first) in the order `1` read as their values.
#[verifier::rlimit(60)]
proof fn lemma_unregister_asset_order_1(asset: Seq<char>, user: Seq<char>, rest: Seq<char>)
    requires
    ensures
        (Permutation { parsers: (spec_key_value("asset_id", Unquote), spec_key_value("user_id", Unquote)) }).spec_parse(unregister_asset_fields(1, asset, user, rest)) == Ok::<(Seq<char>, (Seq<char>, Seq<char>)), ()>(
            (seq!['}'] + rest, (asset, user)),
        ),
{
    lemma_journal_keys();
    let body = text_pair("user_id"@, user) + text_pair("asset_id"@, asset) + seq!['}'] + rest;
    let p0 = body;
    let p1 = text_pair("asset_id"@, asset) + seq!['}'] + rest;
    assert(p0 =~= text_pair("user_id"@, user) + p1);
    assert(p1[0] == '"');
    lemma_trim_start_none(p1);
    lemma_text_pair_reads("user_id", user, p1);
    let p2 = seq!['}'] + rest;
    assert(p1 =~= text_pair("asset_id"@, asset) + p2);
    assert(p2[0] == '}');
    lemma_trim_start_none(p2);
    lemma_text_pair_reads("asset_id", asset, p2);
    assert(p0 =~= spec_quote("user_id"@) + p0.skip(spec_quote("user_id"@).len() as int));
    lemma_pair_refuses("asset_id", Unquote, "user_id"@, p0.skip(spec_quote("user_id"@).len() as int));
    lemma_permutation2_reversed(Permutation { parsers: (spec_key_value("asset_id", Unquote), spec_key_value("user_id", Unquote)) }, body);
}

/// An asset's unregistration, written `App::Journal UnregisterAsset{` with
/// the pairs `"asset_id":"<asset>",` and `"user_id":"<user>",` (texts quoted
/// by [`quote`](crate::parser::combinators::quote)) in either order and `}`
/// (white space allowed before the record and before `UnregisterAsset`),
/// parses back to the unregistration of that asset of that user; what
/// follows loses its leading white space.
#[verifier::rlimit(60)]
pub proof fn lemma_journal_unregister_asset_reads(
    order: int,
    gap0: Seq<char>,
    gap1: Seq<char>,
    asset: Seq<char>, user: Seq<char>,
    rest: Seq<char>,
)
    requires
        0 <= order < 2,
        is_blank(gap0),
        is_blank(gap1),
    ensures
        ({
            let body = unregister_asset_fields(order, asset, user, rest);
            LogKind::spec_parser().spec_parse(gap0 + "App::"@ + "Journal"@ + gap1 + "UnregisterAsset"@ + seq!['{'] + body) == Ok::<
                (Seq<char>, SpecLogKind),
                (),
            >((trim_start(rest), SpecLogKind::App(SpecAppLogKind::Journal(SpecAppLogJournalKind::UnregisterAsset { asset_id: asset, user_id: user }))))
        }),
{
    if order == 0 {
        lemma_unregister_asset_order_0(asset, user, rest);
    } else if order == 1 {
        lemma_unregister_asset_order_1(asset, user, rest);
    }
    let body = unregister_asset_fields(order, asset, user, rest);
    lemma_journal_unregister(gap1, body, rest, (asset, user));
    reveal_strlit("Journal");
    reveal_strlit("App::");
    let b = "Journal"@ + gap1 + "UnregisterAsset"@ + seq!['{'] + body;
    let x = gap0 + "App::"@ + b;
    assert(gap0 + "App::"@ + "Journal"@ + gap1 + "UnregisterAsset"@ + seq!['{'] + body =~= x);
    assert(b[0] == 'J');
    lemma_app_kind_journal(gap0, b, rest, SpecAppLogJournalKind::UnregisterAsset { asset_id: asset, user_id: user });
    lemma_trim_start(rest);
    lemma_trim_start_gap(gap0, "App::"@ + b);
    assert(("App::"@ + b)[0] == 'A');
    lemma_trim_start_none("App::"@ + b);
    lemma_log_kind_app(x, trim_start(rest), SpecAppLogKind::Journal(SpecAppLogJournalKind::UnregisterAsset { asset_id: asset, user_id: user }));
}

/// The fields of an asset's registration (orders 0 to 5: asset-user-liquidity, asset-liquidity-user, user-asset-liquidity, user-liquidity-asset, liquidity-asset-user, liquidity-user-asset) in the order `order`.
pub open spec fn register_asset_fields(order: int, asset: Seq<char>, user: Seq<char>, ds: Seq<char>, rest: Seq<char>) -> Seq<char> {
    if order == 0 { text_pair("asset_id"@, asset) + text_pair("user_id"@, user) + number_pair("liquidity"@, ds) + seq!['}'] + rest } else if order == 1 { text_pair("asset_id"@, asset) + number_pair("liquidity"@, ds) + text_pair("user_id"@, user) + seq!['}'] + rest } else if order == 2 { text_pair("user_id"@, user) + text_pair("asset_id"@, asset) + number_pair("liquidity"@, ds) + seq!['}'] + rest } else if order == 3 { text_pair("user_id"@, user) + number_pair("liquidity"@, ds) + text_pair("asset_id"@, asset) + seq!['}'] + rest } else if order == 4 { number_pair("liquidity"@, ds) + text_pair("asset_id"@, asset) + text_pair("user_id"@, user) + seq!['}'] + rest } else { number_pair("liquidity"@, ds) + text_pair("user_id"@, user) + text_pair("asset_id"@, asset) + seq!['}'] + rest }
}

/// The fields of an asset's registration (orders 0 to 5: asset-user-liquidity, asset-liquidity-user, user-asset-liquidity, user-liquidity-asset, liquidity-asset-user, liquidity-user-asset) in the order `0` read as their values.
#[verifier::rlimit(60)]
proof fn lemma_register_asset_order_0(asset: Seq<char>, user: Seq<char>, ds: Seq<char>, rest: Seq<char>)
    requires
        positive_decimal(ds),
    ensures
        (Permutation { parsers: (spec_key_value("asset_id", Unquote), spec_key_value("user_id", Unquote), spec_key_value("liquidity", U32)) }).spec_parse(register_asset_fields(0, asset, user, ds, rest)) == Ok::<(Seq<char>, (Seq<char>, Seq<char>, u32)), ()>(
            (seq!['}'] + rest, (asset, user, digits_value(ds, 10) as u32)),
        ),
{
    lemma_journal_keys();
    let body = text_pair("asset_id"@, asset) + text_pair("user_id"@, user) + number_pair("liquidity"@, ds) + seq!['}'] + rest;
    let p0 = body;
    let p1 = text_pair("user_id"@, user) + number_pair("liquidity"@, ds) + seq!['}'] + rest;
    assert(p0 =~= text_pair("asset_id"@, asset) + p1);
    assert(p1[0] == '"');
    lemma_trim_start_none(p1);
    lemma_text_pair_reads("asset_id", asset, p1);
    let p2 = number_pair("liquidity"@, ds) + seq!['}'] + rest;
    assert(p1 =~= text_pair("user_id"@, user) + p2);
    assert(p2[0] == '"');
    lemma_trim_start_none(p2);
    lemma_text_pair_reads("user_id", user, p2);
    let p3 = seq!['}'] + rest;
    assert(p2 =~= number_pair("liquidity"@, ds) + p3);
    assert(p3[0] == '}');
    lemma_trim_start_none(p3);
    lemma_number_pair_reads("liquidity", ds, p3);
    assert(p0 =~= spec_quote("asset_id"@) + p0.skip(spec_quote("asset_id"@).len() as int));
    lemma_pair_refuses("user_id", Unquote, "asset_id"@, p0.skip(spec_quote("asset_id"@).len() as int));
    assert(p0 =~= spec_quote("asset_id"@) + p0.skip(spec_quote("asset_id"@).len() as int));
    lemma_pair_refuses("liquidity", U32, "asset_id"@, p0.skip(spec_quote("asset_id"@).len() as int));
    assert(p1 =~= spec_quote("user_id"@) + p1.skip(spec_quote("user_id"@).len() as int));
    lemma_pair_refuses("liquidity", U32, "user_id"@, p1.skip(spec_quote("user_id"@).len() as int));
    lemma_permutation3_order_abc(Permutation { parsers: (spec_key_value("asset_id", Unquote), spec_key_value("user_id", Unquote), spec_key_value("liquidity", U32)) }, p0, p1, p2, p3, asset, user, digits_value(ds, 10) as u32);
}

/// The fields of an asset's registration (orders 0 to 5: asset-user-liquidity, asset-liquidity-user, user-asset-liquidity, user-liquidity-asset, liquidity-asset-user, liquidity-user-asset) in the order `1` read as their values.
#[verifier::rlimit(60)]
proof fn lemma_register_asset_order_1(asset: Seq<char>, user: Seq<char>, ds: Seq<char>, rest: Seq<char>)
    requires
        positive_decimal(ds),
    ensures
        (Permutation { parsers: (spec_key_value("asset_id", Unquote), spec_key_value("user_id", Unquote), spec_key_value("liquidity", U32)) }).spec_parse(register_asset_fields(1, asset, user, ds, rest)) == Ok::<(Seq<char>, (Seq<char>, Seq<char>, u32)), ()>(
            (seq!['}'] + rest, (asset, user, digits_value(ds, 10) as u32)),
        ),
{
    lemma_journal_keys();
    let body = text_pair("asset_id"@, asset) + number_pair("liquidity"@, ds) + text_pair("user_id"@, user) + seq!['}'] + rest;
    let p0 = body;
    let p1 = number_pair("liquidity"@, ds) + text_pair("user_id"@, user) + seq!['}'] + rest;
    assert(p0 =~= text_pair("asset_id"@, asset) + p1);
    assert(p1[0] == '"');
    lemma_trim_start_none(p1);
    lemma_text_pair_reads("asset_id", asset, p1);
    let p2 = text_pair("user_id"@, user) + seq!['}'] + rest;
    assert(p1 =~= number_pair("liquidity"@, ds) + p2);
    assert(p2[0] == '"');
    lemma_trim_start_none(p2);
    lemma_number_pair_reads("liquidity", ds, p2);
    let p3 = seq!['}'] + rest;
    assert(p2 =~= text_pair("user_id"@, user) + p3);
    assert(p3[0] == '}');
    lemma_trim_start_none(p3);
    lemma_text_pair_reads("user_id", user, p3);
    assert(p0 =~= spec_quote("asset_id"@) + p0.skip(spec_quote("asset_id"@).len() as int));
    lemma_pair_refuses("liquidity", U32, "asset_id"@, p0.skip(spec_quote("asset_id"@).len() as int));
    assert(p0 =~= spec_quote("asset_id"@) + p0.skip(spec_quote("asset_id"@).len() as int));
    lemma_pair_refuses("user_id", Unquote, "asset_id"@, p0.skip(spec_quote("asset_id"@).len() as int));
    assert(p1 =~= spec_quote("liquidity"@) + p1.skip(spec_quote("liquidity"@).len() as int));
    lemma_pair_refuses("user_id", Unquote, "liquidity"@, p1.skip(spec_quote("liquidity"@).len() as int));
    lemma_permutation3_order_acb(Permutation { parsers: (spec_key_value("asset_id", Unquote), spec_key_value("user_id", Unquote), spec_key_value("liquidity", U32)) }, p0, p1, p2, p3, asset, user, digits_value(ds, 10) as u32);
}

/// The fields of an asset's registration (orders 0 to 5: asset-user-liquidity, asset-liquidity-user, user-asset-liquidity, user-liquidity-asset, liquidity-asset-user, liquidity-user-asset) in the order `2` read as their values.
#[verifier::rlimit(60)]
proof fn lemma_register_asset_order_2(asset: Seq<char>, user: Seq<char>, ds: Seq<char>, rest: Seq<char>)
    requires
        positive_decimal(ds),
    ensures
        (Permutation { parsers: (spec_key_value("asset_id", Unquote), spec_key_value("user_id", Unquote), spec_key_value("liquidity", U32)) }).spec_parse(register_asset_fields(2, asset, user, ds, rest)) == Ok::<(Seq<char>, (Seq<char>, Seq<char>, u32)), ()>(
            (seq!['}'] + rest, (asset, user, digits_value(ds, 10) as u32)),
        ),
{
    lemma_journal_keys();
    let body = text_pair("user_id"@, user) + text_pair("asset_id"@, asset) + number_pair("liquidity"@, ds) + seq!['}'] + rest;
    let p0 = body;
    let p1 = text_pair("asset_id"@, asset) + number_pair("liquidity"@, ds) + seq!['}'] + rest;
    assert(p0 =~= text_pair("user_id"@, user) + p1);
    assert(p1[0] == '"');
    lemma_trim_start_none(p1);
    lemma_text_pair_reads("user_id", user, p1);
    let p2 = number_pair("liquidity"@, ds) + seq!['}'] + rest;
    assert(p1 =~= text_pair("asset_id"@, asset) + p2);
    assert(p2[0] == '"');
    lemma_trim_start_none(p2);
    lemma_text_pair_reads("asset_id", asset, p2);
    let p3 = seq!['}'] + rest;
    assert(p2 =~= number_pair("liquidity"@, ds) + p3);
    assert(p3[0] == '}');
    lemma_trim_start_none(p3);
    lemma_number_pair_reads("liquidity", ds, p3);
    assert(p0 =~= spec_quote("user_id"@) + p0.skip(spec_quote("user_id"@).len() as int));
    lemma_pair_refuses("asset_id", Unquote, "user_id"@, p0.skip(spec_quote("user_id"@).len() as int));
    assert(p0 =~= spec_quote("user_id"@) + p0.skip(spec_quote("user_id"@).len() as int));
    lemma_pair_refuses("liquidity", U32, "user_id"@, p0.skip(spec_quote("user_id"@).len() as int));
    assert(p1 =~= spec_quote("asset_id"@) + p1.skip(spec_quote("asset_id"@).len() as int));
    lemma_pair_refuses("liquidity", U32, "asset_id"@, p1.skip(spec_quote("asset_id"@).len() as int));
    lemma_permutation3_order_bac(Permutation { parsers: (spec_key_value("asset_id", Unquote), spec_key_value("user_id", Unquote), spec_key_value("liquidity", U32)) }, p0, p1, p2, p3, asset, user, digits_value(ds, 10) as u32);
}

/// The fields of an asset's registration (orders 0 to 5: asset-user-liquidity, asset-liquidity-user, user-asset-liquidity, user-liquidity-asset, liquidity-asset-user, liquidity-user-asset) in the order `3` read as their values.
#[verifier::rlimit(60)]
proof fn lemma_register_asset_order_3(asset: Seq<char>, user: Seq<char>, ds: Seq<char>, rest: Seq<char>)
    requires
        positive_decimal(ds),
    ensures
        (Permutation { parsers: (spec_key_value("asset_id", Unquote), spec_key_value("user_id", Unquote), spec_key_value("liquidity", U32)) }).spec_parse(register_asset_fields(3, asset, user, ds, rest)) == Ok::<(Seq<char>, (Seq<char>, Seq<char>, u32)), ()>(
            (seq!['}'] + rest, (asset, user, digits_value(ds, 10) as u32)),
        ),
{
    lemma_journal_keys();
    let body = text_pair("user_id"@, user) + number_pair("liquidity"@, ds) + text_pair("asset_id"@, asset) + seq!['}'] + rest;
    let p0 = body;
    let p1 = number_pair("liquidity"@, ds) + text_pair("asset_id"@, asset) + seq!['}'] + rest;
    assert(p0 =~= text_pair("user_id"@, user) + p1);
    assert(p1[0] == '"');
    lemma_trim_start_none(p1);
    lemma_text_pair_reads("user_id", user, p1);
    let p2 = text_pair("asset_id"@, asset) + seq!['}'] + rest;
    assert(p1 =~= number_pair("liquidity"@, ds) + p2);
    assert(p2[0] == '"');
    lemma_trim_start_none(p2);
    lemma_number_pair_reads("liquidity", ds, p2);
    let p3 = seq!['}'] + rest;
    assert(p2 =~= text_pair("asset_id"@, asset) + p3);
    assert(p3[0] == '}');
    lemma_trim_start_none(p3);
    lemma_text_pair_reads("asset_id", asset, p3);
    assert(p0 =~= spec_quote("user_id"@) + p0.skip(spec_quote("user_id"@).len() as int));
    lemma_pair_refuses("liquidity", U32, "user_id"@, p0.skip(spec_quote("user_id"@).len() as int));
    assert(p0 =~= spec_quote("user_id"@) + p0.skip(spec_quote("user_id"@).len() as int));
    lemma_pair_refuses("asset_id", Unquote, "user_id"@, p0.skip(spec_quote("user_id"@).len() as int));
    assert(p1 =~= spec_quote("liquidity"@) + p1.skip(spec_quote("liquidity"@).len() as int));
    lemma_pair_refuses("asset_id", Unquote, "liquidity"@, p1.skip(spec_quote("liquidity"@).len() as int));
    lemma_permutation3_order_bca(Permutation { parsers: (spec_key_value("asset_id", Unquote), spec_key_value("user_id", Unquote), spec_key_value("liquidity", U32)) }, p0, p1, p2, p3, asset, user, digits_value(ds, 10) as u32);
}

/// The fields of an asset's registration (orders 0 to 5: asset-user-liquidity, asset-liquidity-user, user-asset-liquidity, user-liquidity-asset, liquidity-asset-user, liquidity-user-asset) in the order `4` read as their values.
#[verifier::rlimit(60)]
proof fn lemma_register_asset_order_4(asset: Seq<char>, user: Seq<char>, ds: Seq<char>, rest: Seq<char>)
    requires
        positive_decimal(ds),
    ensures
        (Permutation { parsers: (spec_key_value("asset_id", Unquote), spec_key_value("user_id", Unquote), spec_key_value("liquidity", U32)) }).spec_parse(register_asset_fields(4, asset, user, ds, rest)) == Ok::<(Seq<char>, (Seq<char>, Seq<char>, u32)), ()>(
            (seq!['}'] + rest, (asset, user, digits_value(ds, 10) as u32)),
        ),
{
    lemma_journal_keys();
    let body = number_pair("liquidity"@, ds) + text_pair("asset_id"@, asset) + text_pair("user_id"@, user) + seq!['}'] + rest;
    let p0 = body;
    let p1 = text_pair("asset_id"@, asset) + text_pair("user_id"@, user) + seq!['}'] + rest;
    assert(p0 =~= number_pair("liquidity"@, ds) + p1);
    assert(p1[0] == '"');
    lemma_trim_start_none(p1);
    lemma_number_pair_reads("liquidity", ds, p1);
    let p2 = text_pair("user_id"@, user) + seq!['}'] + rest;
    assert(p1 =~= text_pair("asset_id"@, asset) + p2);
    assert(p2[0] == '"');
    lemma_trim_start_none(p2);
    lemma_text_pair_reads("asset_id", asset, p2);
    let p3 = seq!['}'] + rest;
    assert(p2 =~= text_pair("user_id"@, user) + p3);
    assert(p3[0] == '}');
    lemma_trim_start_none(p3);
    lemma_text_pair_reads("user_id", user, p3);
    assert(p0 =~= spec_quote("liquidity"@) + p0.skip(spec_quote("liquidity"@).len() as int));
    lemma_pair_refuses("asset_id", Unquote, "liquidity"@, p0.skip(spec_quote("liquidity"@).len() as int));
    assert(p0 =~= spec_quote("liquidity"@) + p0.skip(spec_quote("liquidity"@).len() as int));
    lemma_pair_refuses("user_id", Unquote, "liquidity"@, p0.skip(spec_quote("liquidity"@).len() as int));
    assert(p1 =~= spec_quote("asset_id"@) + p1.skip(spec_quote("asset_id"@).len() as int));
    lemma_pair_refuses("user_id", Unquote, "asset_id"@, p1.skip(spec_quote("asset_id"@).len() as int));
    lemma_permutation3_order_cab(Permutation { parsers: (spec_key_value("asset_id", Unquote), spec_key_value("user_id", Unquote), spec_key_value("liquidity", U32)) }, p0, p1, p2, p3, asset, user, digits_value(ds, 10) as u32);
}

/// The fields of an asset's registration (orders 0 to 5: asset-user-liquidity, asset-liquidity-user, user-asset-liquidity, user-liquidity-asset, liquidity-asset-user, liquidity-user-asset) in the order `5` read as their values.
#[verifier::rlimit(60)]
proof fn lemma_register_asset_order_5(asset: Seq<char>, user: Seq<char>, ds: Seq<char>, rest: Seq<char>)
    requires
        positive_decimal(ds),
    ensures
        (Permutation { parsers: (spec_key_value("asset_id", Unquote), spec_key_value("user_id", Unquote), spec_key_value("liquidity", U32)) }).spec_parse(register_asset_fields(5, asset, user, ds, rest)) == Ok::<(Seq<char>, (Seq<char>, Seq<char>, u32)), ()>(
            (seq!['}'] + rest, (asset, user, digits_value(ds, 10) as u32)),
        ),
{
    lemma_journal_keys();
    let body = number_pair("liquidity"@, ds) + text_pair("user_id"@, user) + text_pair("asset_id"@, asset) + seq!['}'] + rest;
    let p0 = body;
    let p1 = text_pair("user_id"@, user) + text_pair("asset_id"@, asset) + seq!['}'] + rest;
    assert(p0 =~= number_pair("liquidity"@, ds) + p1);
    assert(p1[0] == '"');
    lemma_trim_start_none(p1);
    lemma_number_pair_reads("liquidity", ds, p1);
    let p2 = text_pair("asset_id"@, asset) + seq!['}'] + rest;
    assert(p1 =~= text_pair("user_id"@, user) + p2);
    assert(p2[0] == '"');
    lemma_trim_start_none(p2);
    lemma_text_pair_reads("user_id", user, p2);
    let p3 = seq!['}'] + rest;
    assert(p2 =~= text_pair("asset_id"@, asset) + p3);
    assert(p3[0] == '}');
    lemma_trim_start_none(p3);
    lemma_text_pair_reads("asset_id", asset, p3);
    assert(p0 =~= spec_quote("liquidity"@) + p0.skip(spec_quote("liquidity"@).len() as int));
    lemma_pair_refuses("user_id", Unquote, "liquidity"@, p0.skip(spec_quote("liquidity"@).len() as int));
    assert(p0 =~= spec_quote("liquidity"@) + p0.skip(spec_quote("liquidity"@).len() as int));
    lemma_pair_refuses("asset_id", Unquote, "liquidity"@, p0.skip(spec_quote("liquidity"@).len() as int));
    assert(p1 =~= spec_quote("user_id"@) + p1.skip(spec_quote("user_id"@).len() as int));
    lemma_pair_refuses("asset_id", Unquote, "user_id"@, p1.skip(spec_quote("user_id"@).len() as int));
    lemma_permutation3_order_cba(Permutation { parsers: (spec_key_value("asset_id", Unquote), spec_key_value("user_id", Unquote), spec_key_value("liquidity", U32)) }, p0, p1, p2, p3, asset, user, digits_value(ds, 10) as u32);
}

/// An asset's registration, written `App::Journal RegisterAsset{` with the
/// pairs `"asset_id":"<asset>",`, `"user_id":"<user>",` (texts quoted by
/// [`quote`](crate::parser::combinators::quote)) and `"liquidity":<n>,` in any
/// of the six orders and `}` (white space allowed before the record and before
/// `RegisterAsset`), parses back to the registration of that asset of that
/// user with that liquidity; what follows loses its leading white space.
#[verifier::rlimit(60)]
pub proof fn lemma_journal_register_asset_reads(
    order: int,
    gap0: Seq<char>,
    gap1: Seq<char>,
    asset: Seq<char>, user: Seq<char>, ds: Seq<char>,
    rest: Seq<char>,
)
    requires
        0 <= order < 6,
        is_blank(gap0),
        is_blank(gap1),
        positive_decimal(ds),
    ensures
        ({
            let body = register_asset_fields(order, asset, user, ds, rest);
            LogKind::spec_parser().spec_parse(gap0 + "App::"@ + "Journal"@ + gap1 + "RegisterAsset"@ + seq!['{'] + body) == Ok::<
                (Seq<char>, SpecLogKind),
                (),
            >((trim_start(rest), SpecLogKind::App(SpecAppLogKind::Journal(SpecAppLogJournalKind::RegisterAsset { asset_id: asset, user_id: user, liquidity: digits_value(ds, 10) as u32 }))))
        }),
{
    if order == 0 {
        lemma_register_asset_order_0(asset, user, ds, rest);
    } else if order == 1 {
        lemma_register_asset_order_1(asset, user, ds, rest);
    } else if order == 2 {
        lemma_register_asset_order_2(asset, user, ds, rest);
    } else if order == 3 {
        lemma_register_asset_order_3(asset, user, ds, rest);
    } else if order == 4 {
        lemma_register_asset_order_4(asset, user, ds, rest);
    } else if order == 5 {
        lemma_register_asset_order_5(asset, user, ds, rest);
    }
    let body = register_asset_fields(order, asset, user, ds, rest);
    lemma_journal_register(gap1, body, rest, (asset, user, digits_value(ds, 10) as u32));
    reveal_strlit("Journal");
    reveal_strlit("App::");
    let b = "Journal"@ + gap1 + "RegisterAsset"@ + seq!['{'] + body;
    let x = gap0 + "App::"@ + b;
    assert(gap0 + "App::"@ + "Journal"@ + gap1 + "RegisterAsset"@ + seq!['{'] + body =~= x);
    assert(b[0] == 'J');
    lemma_app_kind_journal(gap0, b, rest, SpecAppLogJournalKind::RegisterAsset { asset_id: asset, user_id: user, liquidity: digits_value(ds, 10) as u32 });
    lemma_trim_start(rest);
    lemma_trim_start_gap(gap0, "App::"@ + b);
    assert(("App::"@ + b)[0] == 'A');
    lemma_trim_start_none("App::"@ + b);
    lemma_log_kind_app(x, trim_start(rest), SpecAppLogKind::Journal(SpecAppLogJournalKind::RegisterAsset { asset_id: asset, user_id: user, liquidity: digits_value(ds, 10) as u32 }));
}

} // verus!

verus! {

/// A status reads `Ok` as success, and `Err(`, a text quoted by
/// [`quote`](crate::parser::combinators::quote) and `)` as the failure with
/// that text; it leaves what follows.
pub proof fn lemma_status_reads(t: Seq<char>, rest: Seq<char>)
    ensures
        Status::spec_parser().spec_parse("Ok"@ + rest) == Ok::<(Seq<char>, SpecStatus), ()>(
            (rest, SpecStatus::Success),
        ),
        Status::spec_parser().spec_parse("Err("@ + spec_quote(t) + ")"@ + rest) == Ok::<
            (Seq<char>, SpecStatus),
            (),
        >((rest, SpecStatus::Failure(t))),
{
    reveal_strlit("Ok");
    reveal_strlit("Err(");
    reveal_strlit(")");
    lemma_tag_reads("Ok", "Ok"@ + rest, rest);
    let s = "Err("@ + spec_quote(t) + ")"@ + rest;
    let after = spec_quote(t) + (")"@ + rest);
    assert(s =~= "Err("@ + after);
    lemma_tag_refuses("Ok", s);
    lemma_tag_reads("Err(", s, after);
    lemma_unquote_quote(t, ")"@ + rest);
    lemma_tag_reads(")", ")"@ + rest, rest);
}

} // verus!
