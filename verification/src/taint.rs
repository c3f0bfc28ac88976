//! Taint tracking: data from LLMs, users or the web stays `UntrustedValue`
//! until `PrincipalChecker` promotes it to a `TrustedAction`.

use vstd::prelude::*;
use crate::text::{chars_of, contains, contains_seq};

verus! {

/// Data originating from LLMs, user input or web scraping.
/// It must not be stored in memory graphs or databases until verified.
#[derive(Debug, Clone)]
pub struct UntrustedValue<T> {
    data: T,
}

impl<T> UntrustedValue<T> {
    /// The value being carried.
    pub closed spec fn data(self) -> T {
        self.data
    }

    /// Wraps `data` as untrusted.
    pub fn new(data: T) -> (r: Self)
        ensures
            r.data() == data,
    {
        Self { data }
    }
}

/// Data that has passed the `PrincipalChecker` and is safe for system mutation.
#[derive(Debug, Clone)]
pub struct TrustedAction<T> {
    data: T,
}

impl<T> TrustedAction<T> {
    /// The value being carried.
    pub closed spec fn data(self) -> T {
        self.data
    }

    /// Gives back the verified value.
    pub fn into_inner(self) -> (r: T)
        ensures
            r == self.data(),
    {
        self.data
    }
}

/// A string passes the checker when it holds neither `<script>` nor `../`.
pub open spec fn is_safe_string(s: Seq<char>) -> bool {
    !contains_seq(s, "<script>"@) && !contains_seq(s, "../"@)
}

/// Security policy gate.
pub struct PrincipalChecker;

impl PrincipalChecker {
    /// Promotes an untrusted string to a `TrustedAction` when it carries neither a
    /// script tag nor a path-traversal sequence; the string itself is kept unchanged.
    pub fn verify_string(value: UntrustedValue<String>) -> (r: Option<TrustedAction<String>>)
        ensures
            r is Some <==> is_safe_string(value.data()@),
            r matches Some(t) ==> t.data() == value.data(),
    {
        let raw = value.data;
        let chars = chars_of(raw.as_str());
        if contains(&chars, &chars_of("<script>")) || contains(&chars, &chars_of("../")) {
            return None;
        }
        Some(TrustedAction { data: raw })
    }

    /// Promotes any untrusted value unchanged.
    pub fn verify_findings<T: Clone>(value: UntrustedValue<T>) -> (r: Option<TrustedAction<T>>)
        ensures
            r matches Some(t) && t.data() == value.data(),
    {
        Some(TrustedAction { data: value.data })
    }
}

} // verus!
