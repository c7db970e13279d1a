//! Framework errors with stable machine-readable codes.
//!
//! Lifecycle misuse is a coded error, config problems are aggregated
//! validation issues, and everything surfaced by plugin code is free-form.

use vstd::prelude::*;
use vstd::string::*;

use serde_json::Error as JsonError;

use crate::text::{decimal, join3, numeral};

verus! {

/// Stable machine-readable error codes.
#[derive(Debug, Clone, Copy, PartialEq, Eq, Structural)]
pub enum CordisCode {
    /// Cannot create an effect on an inactive (disposed / unloading) context.
    InactiveEffect,
    /// The value passed to plugin registration is not a valid plugin shape.
    InvalidPlugin,
    /// A service of this name has already been provided in this scope.
    DuplicateService,
    /// Cannot mutate a service provided by another fiber.
    ForeignService,
    /// A required service was read while its providing fiber is inactive.
    ServiceUnavailable,
    /// A bounded wait ran out before every listener had finished.
    Timeout,
}

impl CordisCode {
    /// The text of a code.
    pub open spec fn text(self) -> Seq<char> {
        match self {
            CordisCode::InactiveEffect => "cannot create effect on inactive context"@,
            CordisCode::InvalidPlugin => "invalid plugin"@,
            CordisCode::DuplicateService => "service has already been registered"@,
            CordisCode::ForeignService => "cannot set service provided by another fiber"@,
            CordisCode::ServiceUnavailable => "cannot get required service in inactive context"@,
            CordisCode::Timeout => "operation timed out"@,
        }
    }

    pub fn as_str(self) -> (res: &'static str)
        ensures
            res@ == self.text(),
            match self {
                CordisCode::InactiveEffect => res@ == "cannot create effect on inactive context"@,
                CordisCode::InvalidPlugin => res@ == "invalid plugin"@,
                CordisCode::DuplicateService => res@ == "service has already been registered"@,
                CordisCode::ForeignService => res@
                    == "cannot set service provided by another fiber"@,
                CordisCode::ServiceUnavailable => res@
                    == "cannot get required service in inactive context"@,
                CordisCode::Timeout => res@ == "operation timed out"@,
            },
    {
        match self {
            CordisCode::InactiveEffect => "cannot create effect on inactive context",
            CordisCode::InvalidPlugin => "invalid plugin",
            CordisCode::DuplicateService => "service has already been registered",
            CordisCode::ForeignService => "cannot set service provided by another fiber",
            CordisCode::ServiceUnavailable => "cannot get required service in inactive context",
            CordisCode::Timeout => "operation timed out",
        }
    }
}

/// Framework error with a stable code.
#[derive(Debug)]
pub struct CordisError {
    pub code: CordisCode,
    pub message: String,
}

impl CordisError {
    /// An error that carries the text of its code.
    pub fn new(code: CordisCode) -> (res: CordisError)
        ensures
            res.code == code,
            res.message@ == code.text(),
    {
        CordisError { code, message: code.as_str().to_owned() }
    }

    /// An error with a message of its own.
    pub fn with_message(code: CordisCode, message: &str) -> (res: CordisError)
        ensures
            res.code == code,
            res.message@ == message@,
    {
        CordisError { code, message: message.to_owned() }
    }
}

impl Clone for CordisError {
    fn clone(&self) -> (res: CordisError)
        ensures
            res == *self,
    {
        CordisError { code: self.code, message: self.message.clone() }
    }
}

/// One schema issue from plugin-config validation.
#[derive(Debug)]
pub struct ValidationIssue {
    /// Dot-joined path to the offending config fragment, if known.
    pub path: Option<String>,
    pub message: String,
    pub suffix: String,
}

/// What follows the message of an issue at `path`.
pub open spec fn issue_suffix(path: Option<String>) -> Seq<char> {
    match path {
        Some(p) => " (at "@ + p@ + ")"@,
        None => Seq::empty(),
    }
}

impl ValidationIssue {
    pub fn new(path: Option<String>, message: &str) -> (res: ValidationIssue)
        ensures
            res.path == path,
            res.message@ == message@,
            res.suffix@ == issue_suffix(path),
            match path {
                Some(p) => res.suffix@ == " (at "@ + p@ + ")"@,
                None => res.suffix@.len() == 0,
            },
    {
        let suffix: String = match &path {
            Some(p) => join3(" (at ", p.as_str(), ")"),
            None => String::new(),
        };
        ValidationIssue { path, message: message.to_owned(), suffix }
    }

    /// The issue as one line of text.
    pub open spec fn text(self) -> Seq<char> {
        self.message@ + self.suffix@
    }

    pub fn render(&self) -> (res: String)
        ensures
            res@ == self.text(),
            res@ == self.message@ + self.suffix@,
    {
        let mut res: String = self.message.clone();
        res.append(self.suffix.as_str());
        res
    }
}

impl Clone for ValidationIssue {
    fn clone(&self) -> (res: ValidationIssue)
        ensures
            res == *self,
    {
        let path: Option<String> = match &self.path {
            Some(p) => Some(p.clone()),
            None => None,
        };
        ValidationIssue { path, message: self.message.clone(), suffix: self.suffix.clone() }
    }
}

/// Aggregated plugin-config validation failure.
#[derive(Debug)]
pub struct ValidationError(pub Vec<ValidationIssue>);

/// Bulleted issues, separated by semicolons.
pub open spec fn issues_text(issues: Seq<ValidationIssue>) -> Seq<char>
    decreases issues.len(),
{
    if issues.len() == 0 {
        Seq::empty()
    } else if issues.len() == 1 {
        "  - "@ + issues[0].text()
    } else {
        issues_text(issues.drop_last()) + "; "@ + ("  - "@ + issues.last().text())
    }
}

/// List `issues` on one line.
pub fn render_issues(issues: &[ValidationIssue]) -> (res: String)
    ensures
        res@ == issues_text(issues@),
{
    let mut res: String = String::new();
    let mut i: usize = 0;
    while i < issues.len()
        invariant
            i <= issues@.len(),
            res@ == issues_text(issues@.take(i as int)),
        decreases issues@.len() - i,
    {
        let ghost before = res@;
        let line: String = issues[i].render();
        if i > 0 {
            res.append("; ");
        }
        let bullet: String = "  - ".to_owned().concat(line.as_str());
        res.append(bullet.as_str());
        proof {
            let next = issues@.take(i + 1);
            assert(next.drop_last() =~= issues@.take(i as int));
            assert(next.last() == issues@[i as int]);
            if i == 0 {
                assert(before =~= Seq::<char>::empty());
                assert(res@ =~= issues_text(next));
            } else {
                assert(res@ =~= issues_text(next));
            }
        }
        i = i + 1;
    }
    assert(issues@.take(issues@.len() as int) =~= issues@);
    res
}

impl ValidationError {
    /// The failure as text: the number of issues and each of them.
    pub open spec fn text(self) -> Seq<char> {
        "invalid config ("@ + numeral(self.0@.len()) + " issues): "@ + issues_text(self.0@)
    }

    pub fn render(&self) -> (res: String)
        ensures
            res@ == self.text(),
            res@ == "invalid config ("@ + numeral(self.0@.len()) + " issues): "@ + issues_text(
                self.0@,
            ),
    {
        let count: String = decimal(self.0.len() as u64);
        let mut res: String = join3("invalid config (", count.as_str(), " issues): ");
        let issues: String = render_issues(self.0.as_slice());
        res.append(issues.as_str());
        res
    }
}

impl Clone for ValidationError {
    fn clone(&self) -> (res: ValidationError)
        ensures
            res.0@ == self.0@,
    {
        let mut issues: Vec<ValidationIssue> = Vec::new();
        let mut i: usize = 0;
        while i < self.0.len()
            invariant
                i <= self.0@.len(),
                issues@ == self.0@.take(i as int),
            decreases self.0@.len() - i,
        {
            issues.push(self.0[i].clone());
            assert(issues@ =~= self.0@.take(i + 1));
            i = i + 1;
        }
        assert(issues@ =~= self.0@);
        ValidationError(issues)
    }
}

/// The `serde_json::Error` type: a parse or conversion failure.
#[verifier::external_type_specification]
#[verifier::external_body]
pub struct ExJsonError(JsonError);

/// Convert a `serde_json` error into a single-issue [`ValidationError`],
/// whose message is what the error displays.
pub fn validation_error_from_json(error: JsonError) -> (res: ValidationError)
    ensures
        res.0@.len() == 1,
        res.0@[0].path is None,
        res.0@[0].suffix@ == Seq::<char>::empty(),
        exists|text: String|
            #![trigger text@]
            to_string_from_display_ensures::<JsonError>(&error, text) && res.0@[0].message@
                == text@,
{
    let text: String = error.to_string();
    validation_error_from_text(text.as_str())
}

/// A validation failure with one issue at no particular path.
pub fn validation_error_from_text(text: &str) -> (res: ValidationError)
    ensures
        res.0@.len() == 1,
        res.0@[0].path is None,
        res.0@[0].message@ == text@,
        res.0@[0].suffix@ == Seq::<char>::empty(),
{
    let mut issues: Vec<ValidationIssue> = Vec::new();
    issues.push(ValidationIssue::new(None, text));
    ValidationError(issues)
}

/// Free-form error surfaced from plugin code, by its message.
#[derive(Debug)]
pub struct SharedError(pub String);

impl Clone for SharedError {
    fn clone(&self) -> (res: SharedError)
        ensures
            res == *self,
    {
        SharedError(self.0.clone())
    }
}

/// The framework-wide error: a coded lifecycle error, a config failure,
/// several listener failures, or a free-form one.
#[derive(Debug)]
pub enum Error {
    Coded(CordisError),
    Validation(ValidationError),
    /// One or more concurrent listeners failed.
    Aggregate(Vec<Error>),
    Other(SharedError),
}

/// What an [`Error`] says.
pub enum ErrorView {
    Coded(CordisError),
    Validation(Seq<ValidationIssue>),
    Aggregate(Seq<ErrorView>),
    Other(Seq<char>),
}

impl Error {
    pub open spec fn deep(self) -> ErrorView
        decreases self,
    {
        match self {
            Error::Coded(e) => ErrorView::Coded(e),
            Error::Validation(e) => ErrorView::Validation(e.0@),
            Error::Aggregate(es) => ErrorView::Aggregate(
                Seq::new(
                    es@.len(),
                    |i: int|
                        if 0 <= i < es@.len() {
                            es@[i].deep()
                        } else {
                            ErrorView::Other(Seq::empty())
                        },
                ),
            ),
            Error::Other(e) => ErrorView::Other(e.0@),
        }
    }
}

/// What each of `errors` says.
pub open spec fn errors_deep(errors: Seq<Error>) -> Seq<ErrorView> {
    errors.map_values(|e: Error| e.deep())
}

impl Error {
    /// A free-form error.
    pub fn msg(message: &str) -> (res: Error)
        ensures
            res.deep() == ErrorView::Other(message@),
    {
        Error::Other(SharedError(message.to_owned()))
    }

    /// Build an aggregate error from concurrent listener failures.
    pub fn aggregate(errors: Vec<Error>) -> (res: Error)
        ensures
            res == Error::Aggregate(errors),
            res.deep() == ErrorView::Aggregate(errors_deep(errors@)),
    {
        let ghost said = errors_deep(errors@);
        let res: Error = Error::Aggregate(errors);
        assert(res.deep()->Aggregate_0 =~= said);
        res
    }

    /// A coded error with the text of its code.
    pub fn coded(code: CordisCode) -> (res: Error)
        ensures
            res matches Error::Coded(e) && e.code == code && e.message@ == code.text(),
    {
        Error::Coded(CordisError::new(code))
    }

    /// Stable classifier: the text of the code of a coded error, `validation`
    /// or `aggregate`; free-form errors have none.
    pub open spec fn code_text(self) -> Option<Seq<char>> {
        match self {
            Error::Coded(e) => Some(e.code.text()),
            Error::Validation(_) => Some("validation"@),
            Error::Aggregate(_) => Some("aggregate"@),
            Error::Other(_) => None,
        }
    }

    pub fn code(&self) -> (res: Option<&'static str>)
        ensures
            match res {
                Some(code) => self.code_text() == Some(code@),
                None => self.code_text() is None,
            },
            match *self {
                Error::Coded(e) => res matches Some(code) && code@ == e.code.text(),
                Error::Validation(_) => res matches Some(code) && code@ == "validation"@,
                Error::Aggregate(_) => res matches Some(code) && code@ == "aggregate"@,
                Error::Other(_) => res is None,
            },
    {
        match self {
            Error::Coded(e) => Some(e.code.as_str()),
            Error::Validation(_) => Some("validation"),
            Error::Aggregate(_) => Some("aggregate"),
            Error::Other(_) => None,
        }
    }

    /// The error as text.
    pub open spec fn text(self) -> Seq<char> {
        match self {
            Error::Coded(e) => e.message@,
            Error::Validation(e) => e.text(),
            Error::Aggregate(es) => "aggregate error ("@ + numeral(es@.len()) + " failures)"@,
            Error::Other(e) => e.0@,
        }
    }

    pub fn render(&self) -> (res: String)
        ensures
            res@ == self.text(),
            match *self {
                Error::Coded(e) => res@ == e.message@,
                Error::Validation(e) => res@ == e.text(),
                Error::Aggregate(es) => res@ == "aggregate error ("@ + numeral(es@.len())
                    + " failures)"@,
                Error::Other(e) => res@ == e.0@,
            },
    {
        match self {
            Error::Coded(e) => e.message.clone(),
            Error::Validation(e) => e.render(),
            Error::Aggregate(es) => {
                let count: String = decimal(es.len() as u64);
                join3("aggregate error (", count.as_str(), " failures)")
            },
            Error::Other(e) => e.0.clone(),
        }
    }
}

impl Clone for Error {
    fn clone(&self) -> (res: Error)
        ensures
            res.deep() == self.deep(),
        decreases self,
    {
        match self {
            Error::Coded(e) => Error::Coded(e.clone()),
            Error::Validation(e) => Error::Validation(e.clone()),
            Error::Aggregate(es) => {
                let mut copies: Vec<Error> = Vec::new();
                let mut i: usize = 0;
                while i < es.len()
                    invariant
                        i <= es@.len(),
                        copies@.len() == i,
                        *self == Error::Aggregate(*es),
                        forall|j: int|
                            0 <= j < i ==> (#[trigger] copies@[j]).deep() == es@[j].deep(),
                    decreases es@.len() - i,
                {
                    assert(decreases_to!(*self => self->Aggregate_0@[i as int]));
                    copies.push(es[i].clone());
                    i = i + 1;
                }
                let res: Error = Error::Aggregate(copies);
                assert(res.deep()->Aggregate_0 =~= self.deep()->Aggregate_0);
                res
            },
            Error::Other(e) => Error::Other(e.clone()),
        }
    }
}

impl From<CordisError> for Error {
    fn from(value: CordisError) -> (res: Error) {
        Error::Coded(value)
    }
}

impl vstd::std_specs::convert::FromSpecImpl<CordisError> for Error {
    open spec fn obeys_from_spec() -> bool {
        true
    }

    open spec fn from_spec(value: CordisError) -> Error {
        Error::Coded(value)
    }
}

impl From<ValidationError> for Error {
    fn from(value: ValidationError) -> (res: Error) {
        Error::Validation(value)
    }
}

impl vstd::std_specs::convert::FromSpecImpl<ValidationError> for Error {
    open spec fn obeys_from_spec() -> bool {
        true
    }

    open spec fn from_spec(value: ValidationError) -> Error {
        Error::Validation(value)
    }
}

impl From<SharedError> for Error {
    fn from(value: SharedError) -> (res: Error) {
        Error::Other(value)
    }
}

impl vstd::std_specs::convert::FromSpecImpl<SharedError> for Error {
    open spec fn obeys_from_spec() -> bool {
        true
    }

    open spec fn from_spec(value: SharedError) -> Error {
        Error::Other(value)
    }
}

impl From<String> for Error {
    fn from(value: String) -> (res: Error) {
        Error::Other(SharedError(value))
    }
}

impl vstd::std_specs::convert::FromSpecImpl<String> for Error {
    open spec fn obeys_from_spec() -> bool {
        true
    }

    open spec fn from_spec(value: String) -> Error {
        Error::Other(SharedError(value))
    }
}

/// The issues of a failure are listed one after another: one issue is a bullet,
/// its message and where it is; two lists are joined by a semicolon.
pub proof fn law_issues_are_listed_in_order(
    first: Seq<ValidationIssue>,
    second: Seq<ValidationIssue>,
    one: ValidationIssue,
)
    requires
        first.len() > 0,
        second.len() > 0,
    ensures
        issues_text(Seq::empty()).len() == 0,
        issues_text(seq![one]) == "  - "@ + (one.message@ + one.suffix@),
        issues_text(first + second) == issues_text(first) + "; "@ + issues_text(second),
    decreases second.len(),
{
    let all = first + second;
    assert(all.drop_last() =~= first + second.drop_last());
    if second.len() == 1 {
        assert(all.drop_last() =~= first);
        assert(issues_text(all) =~= issues_text(first) + "; "@ + issues_text(second));
    } else {
        law_issues_are_listed_in_order(first, second.drop_last(), one);
        assert(issues_text(all) =~= issues_text(first) + "; "@ + issues_text(second));
    }
}

/// What an error says is all of it: the code and message of a coded error, every
/// issue of a config failure, what each error of an aggregate says, in order,
/// and the text of a free-form one.
pub proof fn law_error_says_all_of_it(error: Error, i: int)
    ensures
        match error {
            Error::Coded(e) => error.deep() == ErrorView::Coded(e),
            Error::Validation(e) => error.deep() == ErrorView::Validation(e.0@),
            Error::Aggregate(es) => error.deep() matches ErrorView::Aggregate(said) && said.len()
                == es@.len() && (0 <= i < es@.len() ==> said[i] == es@[i].deep()),
            Error::Other(e) => error.deep() == ErrorView::Other(e.0@),
        },
{
}

/// An error made from something carries it unchanged.
pub proof fn law_conversion_keeps_the_error(
    coded: CordisError,
    config: ValidationError,
    shared: SharedError,
    text: String,
)
    ensures
        <Error as vstd::std_specs::convert::FromSpec<CordisError>>::from_spec(coded)
            == Error::Coded(coded),
        <Error as vstd::std_specs::convert::FromSpec<ValidationError>>::from_spec(config)
            == Error::Validation(config),
        <Error as vstd::std_specs::convert::FromSpec<SharedError>>::from_spec(shared)
            == Error::Other(shared),
        <Error as vstd::std_specs::convert::FromSpec<String>>::from_spec(text) == Error::Other(
            SharedError(text),
        ),
{
}

} // verus!
