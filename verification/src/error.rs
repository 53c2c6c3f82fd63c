//! The failures of a pipeline. Each one ends the task in which it occurs.

use crate::cache::CacheKey;
use crate::text::{decimal, decimal_digits};
use vstd::prelude::*;
use vstd::string::*;

verus! {

/// What went wrong, with the page of the query concerned where there is one.
#[derive(Debug)]
pub enum Failure {
    /// The remote API could not be reached or refused the request.
    NetworkError(CacheKey),
    /// A page's payload does not have the expected shape.
    DecodeError(CacheKey),
    /// In replay mode, a page was asked for that was never stored.
    CacheMiss(CacheKey),
    /// A page could not be stored.
    CacheWriteError(CacheKey),
    /// The consumer is gone while the producer still sends.
    ChannelClosed,
    /// A header or a row could not be written.
    SinkWriteError,
}

impl Failure {
    /// The page concerned, where the failure is about one.
    pub open spec fn key(self) -> Option<CacheKey> {
        match self {
            Failure::NetworkError(k) => Some(k),
            Failure::DecodeError(k) => Some(k),
            Failure::CacheMiss(k) => Some(k),
            Failure::CacheWriteError(k) => Some(k),
            Failure::ChannelClosed => None,
            Failure::SinkWriteError => None,
        }
    }

    /// The first words of the message.
    pub open spec fn headline(self) -> Seq<char> {
        match self {
            Failure::NetworkError(_) => "network error"@,
            Failure::DecodeError(_) => "unexpected payload"@,
            Failure::CacheMiss(_) => "page not in the cache"@,
            Failure::CacheWriteError(_) => "page could not be stored"@,
            Failure::ChannelClosed => "row channel closed by the consumer"@,
            Failure::SinkWriteError => "row could not be written"@,
        }
    }

    /// The message: the headline, then the query and page where there is one.
    pub open spec fn message(self) -> Seq<char> {
        match self.key() {
            Some(k) => self.headline() + ": query "@ + k.query_name@ + ", page "@ + decimal_digits(
                k.page_index as nat,
            ),
            None => self.headline(),
        }
    }

    /// The page concerned, where the failure is about one.
    pub fn page(&self) -> (key: Option<&CacheKey>)
        ensures
            key matches Some(k) ==> self.key() == Some(*k),
            key is None ==> self.key() is None,
    {
        match self {
            Failure::NetworkError(k) => Some(k),
            Failure::DecodeError(k) => Some(k),
            Failure::CacheMiss(k) => Some(k),
            Failure::CacheWriteError(k) => Some(k),
            Failure::ChannelClosed => None,
            Failure::SinkWriteError => None,
        }
    }

    /// The message for the user: what failed, and for which query and page.
    pub fn describe(&self) -> (text: String)
        ensures
            text@ == self.message(),
    {
        let headline: &str = match self {
            Failure::NetworkError(_) => "network error",
            Failure::DecodeError(_) => "unexpected payload",
            Failure::CacheMiss(_) => "page not in the cache",
            Failure::CacheWriteError(_) => "page could not be stored",
            Failure::ChannelClosed => "row channel closed by the consumer",
            Failure::SinkWriteError => "row could not be written",
        };
        let mut text = String::from_str(headline);
        match self.page() {
            Some(k) => {
                text.append(": query ");
                text.append(k.query_name.as_str());
                text.append(", page ");
                let number = decimal(k.page_index);
                text.append(number.as_str());
            },
            None => {},
        }
        text
    }
}

impl Clone for Failure {
    fn clone(&self) -> (copy: Self)
        ensures
            copy == *self,
    {
        match self {
            Failure::NetworkError(k) => Failure::NetworkError(k.clone()),
            Failure::DecodeError(k) => Failure::DecodeError(k.clone()),
            Failure::CacheMiss(k) => Failure::CacheMiss(k.clone()),
            Failure::CacheWriteError(k) => Failure::CacheWriteError(k.clone()),
            Failure::ChannelClosed => Failure::ChannelClosed,
            Failure::SinkWriteError => Failure::SinkWriteError,
        }
    }
}

} // verus!
