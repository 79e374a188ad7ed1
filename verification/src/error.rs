//! Errors of the desk, and the order rejections among them.

use vstd::prelude::*;

use crate::text::{blank, contains, copy_text, has_part, is_blank, joined, solid, without_white};

verus! {

/// A rejection of an order that the broker's reply settles.
///
/// The broker's message code is kept, for logs and for telling rejections apart. A rejection
/// without a code is of the same type.
#[derive(Debug, PartialEq, Eq)]
pub struct OrderRejection {
    code: Option<String>,
    message: String,
}

impl OrderRejection {
    pub closed spec fn code_spec(self) -> Option<String> {
        self.code
    }

    pub closed spec fn message_spec(self) -> Seq<char> {
        self.message@
    }

    pub fn new(message: &str) -> (rejection: Self)
        ensures
            rejection.code_spec() is None,
            rejection.message_spec() == message@,
    {
        OrderRejection { code: None, message: message.to_owned() }
    }

    /// A rejection by the broker. A code of white space alone counts as none.
    pub fn kis(code: Option<String>, message: &str) -> (rejection: Self)
        ensures
            rejection.code_spec() == (if code is Some && !blank(code->0@) {
                code
            } else {
                None
            }),
            rejection.message_spec() == message@,
    {
        let kept = match code {
            Some(code) => if is_blank(code.as_str()) {
                None
            } else {
                Some(code)
            },
            None => None,
        };
        OrderRejection { code: kept, message: message.to_owned() }
    }

    pub fn code(&self) -> (code: Option<&str>)
        ensures
            match code {
                Some(c) => self.code_spec() is Some && c@ == self.code_spec()->0@,
                None => self.code_spec() is None,
            },
    {
        match &self.code {
            Some(code) => Some(code.as_str()),
            None => None,
        }
    }

    pub fn message(&self) -> (message: &str)
        ensures
            message@ == self.message_spec(),
    {
        self.message.as_str()
    }

    /// Whether the rejection is for want of orderable cash, so that a purchase may be tried again
    /// with the quantity that the broker allows.
    ///
    /// Spaces and particles in the broker's wording do not matter. Any other rejection, such as a
    /// trading halt or a wrong price, is not one of these.
    pub fn is_buying_power_shortfall(&self) -> (yes: bool)
        ensures
            yes == ({
                let text = solid(self.message_spec());
                contains(text, "주문가능금액"@) && (contains(text, "부족"@) || contains(
                    text,
                    "초과"@,
                ))
            }),
    {
        let text = without_white(self.message.as_str());
        has_part(text.as_str(), "주문가능금액") && (has_part(text.as_str(), "부족") || has_part(
            text.as_str(),
            "초과",
        ))
    }

    /// The rejection as it is shown: the code in brackets, where there is one, and the message.
    pub fn text(&self) -> (text: String)
        ensures
            text@ == (match self.code_spec() {
                Some(code) => "["@ + code@ + "] "@ + self.message_spec(),
                None => self.message_spec(),
            }),
    {
        match &self.code {
            Some(code) => {
                let mut text = joined("[", code.as_str());
                text.append("] ");
                text.append(self.message.as_str());
                text
            },
            None => self.message.clone(),
        }
    }

    pub fn copy(&self) -> (copy: Self)
        ensures
            copy == *self,
    {
        OrderRejection { code: copy_text(&self.code), message: self.message.clone() }
    }
}

impl From<String> for OrderRejection {
    fn from(message: String) -> (rejection: Self)
        ensures
            rejection.code_spec() is None,
            rejection.message_spec() == message@,
    {
        OrderRejection { code: None, message }
    }
}

impl vstd::std_specs::convert::FromSpecImpl<String> for OrderRejection {
    open spec fn obeys_from_spec() -> bool {
        true
    }

    closed spec fn from_spec(message: String) -> Self {
        OrderRejection { code: None, message }
    }
}

impl From<&str> for OrderRejection {
    fn from(message: &str) -> (rejection: Self)
        ensures
            rejection.code_spec() is None,
            rejection.message_spec() == message@,
    {
        OrderRejection::new(message)
    }
}

impl vstd::std_specs::convert::FromSpecImpl<&str> for OrderRejection {
    open spec fn obeys_from_spec() -> bool {
        false
    }

    open spec fn from_spec(message: &str) -> Self {
        arbitrary()
    }
}

/// What can go wrong. Failures of the network, of files and of JSON come with their own text.
#[derive(Debug, PartialEq, Eq)]
pub enum AppError {
    Http(String),
    Kis(String),
    Config(String),
    Order(OrderRejection),
    Io(String),
    Parse(String),
}

impl AppError {
    /// The rejection, where the error is one.
    pub fn order_rejection(&self) -> (rejection: Option<&OrderRejection>)
        ensures
            match rejection {
                Some(r) => *self == AppError::Order(*r),
                None => !(*self is Order),
            },
    {
        match self {
            AppError::Order(rejection) => Some(rejection),
            _ => None,
        }
    }

    /// Whether the broker has settled that there is no order.
    pub fn is_confirmed_order_rejection(&self) -> (yes: bool)
        ensures
            yes == (*self is Order),
    {
        self.order_rejection().is_some()
    }

    pub open spec fn shown(self) -> Seq<char> {
        match self {
            AppError::Http(text) => "네트워크 오류: "@ + text@,
            AppError::Kis(text) => "KIS API 오류: "@ + text@,
            AppError::Config(text) => "설정 오류: "@ + text@,
            AppError::Order(rejection) => "주문 불가: "@ + match rejection.code_spec() {
                Some(code) => "["@ + code@ + "] "@ + rejection.message_spec(),
                None => rejection.message_spec(),
            },
            AppError::Io(text) => "입출력 오류: "@ + text@,
            AppError::Parse(text) => "파싱 오류: "@ + text@,
        }
    }

    /// The error as it is shown.
    pub fn text(&self) -> (text: String)
        ensures
            text@ == self.shown(),
    {
        match self {
            AppError::Http(text) => joined("네트워크 오류: ", text.as_str()),
            AppError::Kis(text) => joined("KIS API 오류: ", text.as_str()),
            AppError::Config(text) => joined("설정 오류: ", text.as_str()),
            AppError::Order(rejection) => joined("주문 불가: ", rejection.text().as_str()),
            AppError::Io(text) => joined("입출력 오류: ", text.as_str()),
            AppError::Parse(text) => joined("파싱 오류: ", text.as_str()),
        }
    }
}

/// The error is a failure to read something, with this text.
pub open spec fn is_parse(error: AppError, text: Seq<char>) -> bool {
    error matches AppError::Parse(t) && t@ == text
}

/// The error is one of the broker's, with this text.
pub open spec fn is_kis(error: AppError, text: Seq<char>) -> bool {
    error matches AppError::Kis(t) && t@ == text
}

/// The error is one of the settings, with this text.
pub open spec fn is_config(error: AppError, text: Seq<char>) -> bool {
    error matches AppError::Config(t) && t@ == text
}

pub type AppResult<T> = Result<T, AppError>;

} // verus!
