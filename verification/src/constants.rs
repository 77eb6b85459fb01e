//! The protocol's small integer codes: error codes and api keys.

use vstd::prelude::*;

verus! {

/// The error codes this server ever answers with.
#[derive(Debug, Clone, Copy, PartialEq, Eq, Structural)]
pub enum ErrorCode {
    NoError,
    UnknownTopic,
    UnsupportedVersion,
}

impl ErrorCode {
    /// The two-byte signed code each variant stands for on the wire.
    pub open spec fn spec_code(self) -> i16 {
        match self {
            ErrorCode::NoError => 0,
            ErrorCode::UnknownTopic => 3,
            ErrorCode::UnsupportedVersion => 35,
        }
    }

    pub fn code(self) -> (r: i16)
        ensures
            r == self.spec_code(),
    {
        match self {
            ErrorCode::NoError => 0,
            ErrorCode::UnknownTopic => 3,
            ErrorCode::UnsupportedVersion => 35,
        }
    }
}

impl Default for ErrorCode {
    fn default() -> (r: ErrorCode)
        ensures
            r == ErrorCode::NoError,
    {
        ErrorCode::NoError
    }
}

/// The api keys the dispatcher can tell apart; every other code on the
/// wire reads as `Invalid` and is answered as unsupported.
#[derive(Debug, Clone, Copy, PartialEq, Eq, Structural)]
pub enum ApiKey {
    Invalid,
    Fetch,
    ApiVersions,
    DescribeTopicPartitions,
}

impl ApiKey {
    /// The two-byte signed code each variant stands for on the wire.
    pub open spec fn spec_code(self) -> i16 {
        match self {
            ApiKey::Invalid => 0,
            ApiKey::Fetch => 1,
            ApiKey::ApiVersions => 18,
            ApiKey::DescribeTopicPartitions => 75,
        }
    }

    pub fn code(self) -> (r: i16)
        ensures
            r == self.spec_code(),
    {
        match self {
            ApiKey::Invalid => 0,
            ApiKey::Fetch => 1,
            ApiKey::ApiVersions => 18,
            ApiKey::DescribeTopicPartitions => 75,
        }
    }

    /// Which variant a wire code reads as; codes that name no known api
    /// read as `Invalid`.
    pub open spec fn spec_from_code(code: i16) -> ApiKey {
        if code == 1 {
            ApiKey::Fetch
        } else if code == 18 {
            ApiKey::ApiVersions
        } else if code == 75 {
            ApiKey::DescribeTopicPartitions
        } else {
            ApiKey::Invalid
        }
    }

    pub fn from_code(code: i16) -> (r: ApiKey)
        ensures
            r == ApiKey::spec_from_code(code),
    {
        if code == 1 {
            ApiKey::Fetch
        } else if code == 18 {
            ApiKey::ApiVersions
        } else if code == 75 {
            ApiKey::DescribeTopicPartitions
        } else {
            ApiKey::Invalid
        }
    }
}

impl Default for ApiKey {
    fn default() -> (r: ApiKey)
        ensures
            r == ApiKey::Fetch,
    {
        ApiKey::Fetch
    }
}

/// Reading an api key's own code back yields that api key: the codes are
/// distinct.
pub proof fn lemma_api_key_code_round(k: ApiKey)
    ensures
        ApiKey::spec_from_code(k.spec_code()) == k,
{
}

} // verus!
