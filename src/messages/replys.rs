//! Numeric replies in the plain command form.
use vstd::prelude::*;

use crate::copy::copy_strings;
use crate::generic::strings_view;
use crate::messages::{joined, Command, CmdModel};
use crate::text::{decimal, decimal_string};

verus! {

/// A reply: a code and its parameters.
#[derive(Debug, Clone, PartialEq, Eq)]
pub enum Reply {
    Raw(u16, Vec<String>),
}

/// An error reply: a code and its parameters.
#[derive(Debug, Clone, PartialEq, Eq)]
pub enum ErrorReply {
    Raw(u16, Vec<String>),
}

/// A reply as its code and its parameters.
pub struct ReplyModel {
    pub code: u16,
    pub params: Seq<Seq<char>>,
}

impl View for Reply {
    type V = ReplyModel;

    open spec fn view(&self) -> ReplyModel {
        match self {
            Reply::Raw(code, params) => ReplyModel { code: *code, params: strings_view(params@) },
        }
    }
}

impl View for ErrorReply {
    type V = ReplyModel;

    open spec fn view(&self) -> ReplyModel {
        match self {
            ErrorReply::Raw(code, params) => ReplyModel {
                code: *code,
                params: strings_view(params@),
            },
        }
    }
}

/// The command form of a reply: its code in decimal, then its parameters.
pub open spec fn reply_command(r: ReplyModel) -> CmdModel {
    CmdModel::Raw(decimal(r.code as nat), r.params)
}

/// A reply as text: its code, then its parameters after single spaces.
pub open spec fn reply_text(r: ReplyModel) -> Seq<char> {
    if r.params.len() == 0 {
        decimal(r.code as nat)
    } else {
        decimal(r.code as nat) + seq![' '] + joined(r.params)
    }
}

fn reply_text_string(code: u16, params: &Vec<String>) -> (r: String)
    ensures
        r@ == reply_text(ReplyModel { code, params: strings_view(params@) }),
{
    let mut out = decimal_string(code as u32);
    if params.len() > 0 {
        proof {
            reveal_strlit(" ");
        }
        out.append(" ");
        let rest = crate::messages::join_strings(params);
        out.append(rest.as_str());
    }
    out
}

impl Reply {
    /// The reply in its plain form.
    pub fn raw(&self) -> (r: Self)
        ensures
            r@ == self@,
    {
        match self {
            Reply::Raw(code, params) => Reply::Raw(*code, copy_strings(params)),
        }
    }

    /// The reply as a command.
    pub fn raw_command(self) -> (r: Command)
        ensures
            r@ == reply_command(self@),
    {
        let reply = self.raw();
        match reply {
            Reply::Raw(code, params) => Command::Raw(decimal_string(code as u32), params),
        }
    }

    /// The reply as text.
    pub fn to_text(&self) -> (r: String)
        ensures
            r@ == reply_text(self@),
    {
        match self {
            Reply::Raw(code, params) => reply_text_string(*code, params),
        }
    }
}

impl ErrorReply {
    /// The error reply in its plain form.
    pub fn raw(&self) -> (r: Self)
        ensures
            r@ == self@,
    {
        match self {
            ErrorReply::Raw(code, params) => ErrorReply::Raw(*code, copy_strings(params)),
        }
    }

    /// The error reply as a command.
    pub fn raw_command(self) -> (r: Command)
        ensures
            r@ == reply_command(self@),
    {
        let reply = self.raw();
        match reply {
            ErrorReply::Raw(code, params) => Command::Raw(decimal_string(code as u32), params),
        }
    }

    /// The error reply as text.
    pub fn to_text(&self) -> (r: String)
        ensures
            r@ == reply_text(self@),
    {
        match self {
            ErrorReply::Raw(code, params) => reply_text_string(*code, params),
        }
    }
}

} // verus!
