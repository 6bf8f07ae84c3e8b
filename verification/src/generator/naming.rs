//! The names of the items of a generated driver: commands and common
//! structures are named in upper camel case, and the request and response of
//! a command after the command.

use vstd::prelude::*;
use vstd::string::*;

use crate::generator::case::{snake_case, to_snake, to_upper_camel, upper_camel_case};

verus! {

/// The name of a command, in upper camel case.
#[derive(Clone, Debug, PartialEq)]
pub struct CommandName(String);

/// The name of a common structure, in upper camel case.
#[derive(Clone, Debug, PartialEq)]
pub struct CommonStructureName(String);

/// The name of the request structure of a command.
#[derive(Clone, Debug, PartialEq)]
pub struct RequestStructName(String);

/// The name of the response structure of a command.
#[derive(Clone, Debug, PartialEq)]
pub struct ResponseStructName(String);

impl View for CommandName {
    type V = Seq<char>;

    closed spec fn view(&self) -> Seq<char> {
        self.0@
    }
}

impl View for CommonStructureName {
    type V = Seq<char>;

    closed spec fn view(&self) -> Seq<char> {
        self.0@
    }
}

impl View for RequestStructName {
    type V = Seq<char>;

    closed spec fn view(&self) -> Seq<char> {
        self.0@
    }
}

impl View for ResponseStructName {
    type V = Seq<char>;

    closed spec fn view(&self) -> Seq<char> {
        self.0@
    }
}

/// The name of the file of an item: its name in snake case, with `.rs`.
pub open spec fn file_name_of(name: Seq<char>) -> Seq<char> {
    snake_case(name) + ".rs"@
}

/// Writes the file name of an item named `name`.
fn file_name(name: &str) -> (r: String)
    ensures
        r@ == file_name_of(name@),
{
    let s = to_snake(name);
    proof {
        reveal_strlit(".rs");
    }
    s.concat(".rs")
}

impl CommandName {
    /// The command name for `name`, in upper camel case.
    pub fn from(name: &str) -> (r: CommandName)
        ensures
            r@ == upper_camel_case(name@),
    {
        CommandName(to_upper_camel(name))
    }

    /// The name of the command's file: the name in snake case, with `.rs`.
    pub fn to_file_name(&self) -> (r: String)
        ensures
            r@ == file_name_of(self@),
    {
        file_name(self.0.as_str())
    }

    /// The name.
    pub fn to_string(&self) -> (r: String)
        ensures
            r@ == self@,
    {
        String::from_str(self.0.as_str())
    }
}

impl CommonStructureName {
    /// The common structure name for `name`, in upper camel case.
    pub fn from(name: &str) -> (r: CommonStructureName)
        ensures
            r@ == upper_camel_case(name@),
    {
        CommonStructureName(to_upper_camel(name))
    }

    /// The name of the structure's file: the name in snake case, with `.rs`.
    pub fn to_file_name(&self) -> (r: String)
        ensures
            r@ == file_name_of(self@),
    {
        file_name(self.0.as_str())
    }

    /// The name.
    pub fn to_string(&self) -> (r: String)
        ensures
            r@ == self@,
    {
        String::from_str(self.0.as_str())
    }
}

impl RequestStructName {
    /// The name of the request of a command: the command's name and
    /// `Request`.
    pub fn from(command_name: &CommandName) -> (r: RequestStructName)
        ensures
            r@ == command_name@ + "Request"@,
    {
        proof {
            reveal_strlit("Request");
        }
        let s = String::from_str(command_name.0.as_str());
        RequestStructName(s.concat("Request"))
    }

    /// The name.
    pub fn to_string(&self) -> (r: String)
        ensures
            r@ == self@,
    {
        String::from_str(self.0.as_str())
    }
}

impl ResponseStructName {
    /// The name of the response of a command: the command's name and
    /// `Response`.
    pub fn from(command_name: &CommandName) -> (r: ResponseStructName)
        ensures
            r@ == command_name@ + "Response"@,
    {
        proof {
            reveal_strlit("Response");
        }
        let s = String::from_str(command_name.0.as_str());
        ResponseStructName(s.concat("Response"))
    }

    /// The name.
    pub fn to_string(&self) -> (r: String)
        ensures
            r@ == self@,
    {
        String::from_str(self.0.as_str())
    }
}

} // verus!
