use vstd::prelude::*;
use vstd::string::*;

use crate::errors::{rendered, ArithmeticError, ErrorView};
use crate::evaluation::{evaluate, evaluated, Reduction, ReductionView};
use crate::parsing::{parse, parsed};
use crate::precedence::parsed_evaluates;

verus! {

/// Whether a calculation went through.
#[allow(non_camel_case_types)]
#[derive(Debug, Clone, Copy, PartialEq, Eq, Structural)]
pub enum Status {
    SUCCESS,
    FAILED,
}

/// The text of an expression to calculate.
#[derive(Debug)]
pub struct ArithmeticRequest {
    expression: String,
}

impl View for ArithmeticRequest {
    type V = Seq<char>;

    closed spec fn view(&self) -> Seq<char> {
        self.expression@
    }
}

impl ArithmeticRequest {
    /// A request to calculate `expression`.
    pub fn new(expression: String) -> (request: Self)
        ensures
            request@ == expression@,
    {
        ArithmeticRequest { expression }
    }
}

/// The answer to a request: the reduced expression where there is one, a
/// message where there is none, and the status that tells which.
#[derive(Debug)]
pub struct ArithmeticResponse {
    result: Option<Reduction>,
    message: String,
    status: Status,
}

/// The mathematical content of an [`ArithmeticResponse`].
pub struct ResponseView {
    pub result: Option<ReductionView>,
    pub message: Seq<char>,
    pub status: Status,
}

impl View for ArithmeticResponse {
    type V = ResponseView;

    closed spec fn view(&self) -> ResponseView {
        ResponseView {
            result: match self.result {
                Some(reduction) => Some(reduction@),
                None => None,
            },
            message: self.message@,
            status: self.status,
        }
    }
}

/// The answer that reports `error`.
pub open spec fn failure(error: ErrorView) -> ResponseView {
    ResponseView { result: None, message: rendered(error), status: Status::FAILED }
}

/// The answer that carries `reduction`.
pub open spec fn success(reduction: ReductionView) -> ResponseView {
    ResponseView { result: Some(reduction), message: Seq::empty(), status: Status::SUCCESS }
}

/// The answer to the expression `text`: it succeeds where the text parses
/// and its tokens evaluate, and else reports the first error met.
pub open spec fn answered(text: Seq<char>) -> ResponseView {
    match parsed(text) {
        Err(error) => failure(error),
        Ok(tokens) => match evaluated(tokens) {
            Err(error) => failure(error),
            Ok(reduction) => success(reduction),
        },
    }
}

/// A calculation succeeds on exactly the texts that parse: what the parser
/// lets through never fails to evaluate.
pub proof fn answer_succeeds_where_text_parses(text: Seq<char>)
    ensures
        answered(text).status == Status::SUCCESS <==> parsed(text) is Ok,
        answered(text).status == Status::SUCCESS <==> answered(text).result is Some,
        answered(text).status == Status::SUCCESS ==> answered(text).message.len() == 0,
{
    if parsed(text) is Ok {
        parsed_evaluates(text);
    }
}

/// The text that std's `Debug` gives, in its pretty form, for a response.
pub uninterp spec fn pretty_text(response: ResponseView) -> Seq<char>;

/// Formats a response with the pretty form of the `Debug` that is derived
/// for it. Trusted: the text depends on what the response holds alone.
#[verifier::external_body]
fn pretty_of(response: &ArithmeticResponse) -> (text: String)
    ensures
        text@ == pretty_text(response@),
{
    format!("{:#?}", response)
}

impl ArithmeticResponse {
    /// The reduced expression, where the calculation went through.
    pub fn result(&self) -> (result: &Option<Reduction>)
        ensures
            match *result {
                Some(reduction) => self@.result == Some(reduction@),
                None => self@.result is None,
            },
    {
        &self.result
    }

    /// What went wrong, in words; empty where nothing did.
    pub fn message(&self) -> (message: String)
        ensures
            message@ == self@.message,
    {
        self.message.clone()
    }

    /// Whether the calculation went through.
    pub fn status(&self) -> (status: Status)
        ensures
            status == self@.status,
    {
        self.status
    }

    /// All of the response, laid out for a log.
    pub fn to_string(&self) -> (text: String)
        ensures
            text@ == pretty_text(self@),
    {
        pretty_of(self)
    }
}

/// The response that reports `error`.
fn failed(error: &ArithmeticError) -> (response: ArithmeticResponse)
    ensures
        response@ == failure(error@),
{
    ArithmeticResponse { result: None, message: error.to_string(), status: Status::FAILED }
}

/// Parses and evaluates the expression of `request`. Every error ends the
/// calculation and becomes a failed response with the error's text.
pub fn calculate(request: ArithmeticRequest) -> (response: ArithmeticResponse)
    ensures
        response@ == answered(request@),
        response@.status == Status::SUCCESS <==> parsed(request@) is Ok,
{
    proof {
        answer_succeeds_where_text_parses(request@);
    }
    let expression = match parse(request.expression.as_str()) {
        Ok(expression) => expression,
        Err(error) => {
            return failed(&error);
        },
    };
    match evaluate(&expression) {
        Ok(reduction) => ArithmeticResponse {
            result: Some(reduction),
            message: String::new(),
            status: Status::SUCCESS,
        },
        Err(error) => failed(&error),
    }
}

} // verus!
