//! Identifiers: text under a type of its own.

use vstd::prelude::*;
use vstd::std_specs::convert::FromSpecImpl;

verus! {

/// Names one run.
#[derive(Debug, Eq, Hash)]
pub struct RunId(pub String);

impl View for RunId {
    type V = Seq<char>;

    open spec fn view(&self) -> Seq<char> {
        self.0@
    }
}

impl RunId {
    /// The identifier as text.
    pub fn as_str(&self) -> (text: &str)
        ensures
            text@ == self@,
    {
        self.0.as_str()
    }
}

impl Clone for RunId {
    fn clone(&self) -> (copy: Self)
        ensures
            copy == *self,
    {
        RunId(self.0.clone())
    }
}

impl PartialEq for RunId {
    fn eq(&self, other: &Self) -> (same: bool) {
        self.0 == other.0
    }
}

impl vstd::std_specs::cmp::PartialEqSpecImpl for RunId {
    open spec fn obeys_eq_spec() -> bool {
        true
    }

    open spec fn eq_spec(&self, other: &Self) -> bool {
        self@ == other@
    }
}

impl From<String> for RunId {
    fn from(text: String) -> (id: Self)
        ensures
            id@ == text@,
    {
        RunId(text)
    }
}

impl FromSpecImpl<String> for RunId {
    open spec fn obeys_from_spec() -> bool {
        true
    }

    open spec fn from_spec(text: String) -> Self {
        RunId(text)
    }
}

impl<'a> From<&'a str> for RunId {
    fn from(text: &'a str) -> (id: Self)
        ensures
            id@ == text@,
    {
        RunId(text.to_owned())
    }
}

impl<'a> FromSpecImpl<&'a str> for RunId {
    open spec fn obeys_from_spec() -> bool {
        false
    }

    open spec fn from_spec(text: &'a str) -> Self {
        arbitrary()
    }
}

/// Names the session that a run belongs to.
#[derive(Debug, Eq, Hash)]
pub struct SessionId(pub String);

impl View for SessionId {
    type V = Seq<char>;

    open spec fn view(&self) -> Seq<char> {
        self.0@
    }
}

impl SessionId {
    /// The identifier as text.
    pub fn as_str(&self) -> (text: &str)
        ensures
            text@ == self@,
    {
        self.0.as_str()
    }
}

impl Clone for SessionId {
    fn clone(&self) -> (copy: Self)
        ensures
            copy == *self,
    {
        SessionId(self.0.clone())
    }
}

impl PartialEq for SessionId {
    fn eq(&self, other: &Self) -> (same: bool) {
        self.0 == other.0
    }
}

impl vstd::std_specs::cmp::PartialEqSpecImpl for SessionId {
    open spec fn obeys_eq_spec() -> bool {
        true
    }

    open spec fn eq_spec(&self, other: &Self) -> bool {
        self@ == other@
    }
}

impl From<String> for SessionId {
    fn from(text: String) -> (id: Self)
        ensures
            id@ == text@,
    {
        SessionId(text)
    }
}

impl FromSpecImpl<String> for SessionId {
    open spec fn obeys_from_spec() -> bool {
        true
    }

    open spec fn from_spec(text: String) -> Self {
        SessionId(text)
    }
}

impl<'a> From<&'a str> for SessionId {
    fn from(text: &'a str) -> (id: Self)
        ensures
            id@ == text@,
    {
        SessionId(text.to_owned())
    }
}

impl<'a> FromSpecImpl<&'a str> for SessionId {
    open spec fn obeys_from_spec() -> bool {
        false
    }

    open spec fn from_spec(text: &'a str) -> Self {
        arbitrary()
    }
}

/// Names the thread whose checkpoint a run continues.
#[derive(Debug, Eq, Hash)]
pub struct ThreadId(pub String);

impl View for ThreadId {
    type V = Seq<char>;

    open spec fn view(&self) -> Seq<char> {
        self.0@
    }
}

impl ThreadId {
    /// The identifier as text.
    pub fn as_str(&self) -> (text: &str)
        ensures
            text@ == self@,
    {
        self.0.as_str()
    }
}

impl Clone for ThreadId {
    fn clone(&self) -> (copy: Self)
        ensures
            copy == *self,
    {
        ThreadId(self.0.clone())
    }
}

impl PartialEq for ThreadId {
    fn eq(&self, other: &Self) -> (same: bool) {
        self.0 == other.0
    }
}

impl vstd::std_specs::cmp::PartialEqSpecImpl for ThreadId {
    open spec fn obeys_eq_spec() -> bool {
        true
    }

    open spec fn eq_spec(&self, other: &Self) -> bool {
        self@ == other@
    }
}

impl From<String> for ThreadId {
    fn from(text: String) -> (id: Self)
        ensures
            id@ == text@,
    {
        ThreadId(text)
    }
}

impl FromSpecImpl<String> for ThreadId {
    open spec fn obeys_from_spec() -> bool {
        true
    }

    open spec fn from_spec(text: String) -> Self {
        ThreadId(text)
    }
}

impl<'a> From<&'a str> for ThreadId {
    fn from(text: &'a str) -> (id: Self)
        ensures
            id@ == text@,
    {
        ThreadId(text.to_owned())
    }
}

impl<'a> FromSpecImpl<&'a str> for ThreadId {
    open spec fn obeys_from_spec() -> bool {
        false
    }

    open spec fn from_spec(text: &'a str) -> Self {
        arbitrary()
    }
}

/// Names the worker that holds a lease.
#[derive(Debug, Eq, Hash)]
pub struct WorkerId(pub String);

impl View for WorkerId {
    type V = Seq<char>;

    open spec fn view(&self) -> Seq<char> {
        self.0@
    }
}

impl WorkerId {
    /// The identifier as text.
    pub fn as_str(&self) -> (text: &str)
        ensures
            text@ == self@,
    {
        self.0.as_str()
    }
}

impl Clone for WorkerId {
    fn clone(&self) -> (copy: Self)
        ensures
            copy == *self,
    {
        WorkerId(self.0.clone())
    }
}

impl PartialEq for WorkerId {
    fn eq(&self, other: &Self) -> (same: bool) {
        self.0 == other.0
    }
}

impl vstd::std_specs::cmp::PartialEqSpecImpl for WorkerId {
    open spec fn obeys_eq_spec() -> bool {
        true
    }

    open spec fn eq_spec(&self, other: &Self) -> bool {
        self@ == other@
    }
}

impl From<String> for WorkerId {
    fn from(text: String) -> (id: Self)
        ensures
            id@ == text@,
    {
        WorkerId(text)
    }
}

impl FromSpecImpl<String> for WorkerId {
    open spec fn obeys_from_spec() -> bool {
        true
    }

    open spec fn from_spec(text: String) -> Self {
        WorkerId(text)
    }
}

impl<'a> From<&'a str> for WorkerId {
    fn from(text: &'a str) -> (id: Self)
        ensures
            id@ == text@,
    {
        WorkerId(text.to_owned())
    }
}

impl<'a> FromSpecImpl<&'a str> for WorkerId {
    open spec fn obeys_from_spec() -> bool {
        false
    }

    open spec fn from_spec(text: &'a str) -> Self {
        arbitrary()
    }
}

/// Names one claim of a lease.
#[derive(Debug, Eq, Hash)]
pub struct LeaseId(pub String);

impl View for LeaseId {
    type V = Seq<char>;

    open spec fn view(&self) -> Seq<char> {
        self.0@
    }
}

impl LeaseId {
    /// The identifier as text.
    pub fn as_str(&self) -> (text: &str)
        ensures
            text@ == self@,
    {
        self.0.as_str()
    }
}

impl Clone for LeaseId {
    fn clone(&self) -> (copy: Self)
        ensures
            copy == *self,
    {
        LeaseId(self.0.clone())
    }
}

impl PartialEq for LeaseId {
    fn eq(&self, other: &Self) -> (same: bool) {
        self.0 == other.0
    }
}

impl vstd::std_specs::cmp::PartialEqSpecImpl for LeaseId {
    open spec fn obeys_eq_spec() -> bool {
        true
    }

    open spec fn eq_spec(&self, other: &Self) -> bool {
        self@ == other@
    }
}

impl From<String> for LeaseId {
    fn from(text: String) -> (id: Self)
        ensures
            id@ == text@,
    {
        LeaseId(text)
    }
}

impl FromSpecImpl<String> for LeaseId {
    open spec fn obeys_from_spec() -> bool {
        true
    }

    open spec fn from_spec(text: String) -> Self {
        LeaseId(text)
    }
}

impl<'a> From<&'a str> for LeaseId {
    fn from(text: &'a str) -> (id: Self)
        ensures
            id@ == text@,
    {
        LeaseId(text.to_owned())
    }
}

impl<'a> FromSpecImpl<&'a str> for LeaseId {
    open spec fn obeys_from_spec() -> bool {
        false
    }

    open spec fn from_spec(text: &'a str) -> Self {
        arbitrary()
    }
}

} // verus!
