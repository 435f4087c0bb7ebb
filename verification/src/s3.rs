//! Addressing for S3-style stores: bucket, object key, and their pair.
//!
//! The network client itself is a host concern; here live the location
//! types and the wrapper that ties any S3-style client value to a
//! downloader.

use vstd::prelude::*;

use crate::config::Config;
use crate::errors::CondowError;
use crate::Condow;

verus! {

/// An S3 bucket name.
#[derive(Debug)]
pub struct Bucket(String);

impl Bucket {
    /// The bucket name as text.
    pub closed spec fn view_spec(self) -> Seq<char> {
        self.0@
    }

    /// A bucket with the given name.
    pub fn new(bucket: &str) -> (r: Self)
        ensures
            r.view_spec() == bucket@,
    {
        Bucket(bucket.to_owned())
    }

    /// Addresses an object inside this bucket.
    pub fn object(self, key: ObjectKey) -> (r: S3Location)
        ensures
            r.bucket_spec() == self.view_spec(),
            r.key_spec() == key.view_spec(),
    {
        S3Location(self, key)
    }

    /// The bucket name.
    pub fn into_inner(self) -> (r: String)
        ensures
            r@ == self.view_spec(),
    {
        self.0
    }

    /// The bucket name, borrowed.
    pub fn as_str(&self) -> (r: &str)
        ensures
            r@ == self.view_spec(),
    {
        self.0.as_str()
    }
}

/// An S3 object key.
#[derive(Debug)]
pub struct ObjectKey(String);

impl ObjectKey {
    /// The object key as text.
    pub closed spec fn view_spec(self) -> Seq<char> {
        self.0@
    }

    /// An object key with the given name.
    pub fn new(key: &str) -> (r: Self)
        ensures
            r.view_spec() == key@,
    {
        ObjectKey(key.to_owned())
    }

    /// Addresses this object inside the given bucket.
    pub fn in_bucket(self, bucket: Bucket) -> (r: S3Location)
        ensures
            r.bucket_spec() == bucket.view_spec(),
            r.key_spec() == self.view_spec(),
    {
        S3Location(bucket, self)
    }

    /// The object key.
    pub fn into_inner(self) -> (r: String)
        ensures
            r@ == self.view_spec(),
    {
        self.0
    }

    /// The object key, borrowed.
    pub fn as_str(&self) -> (r: &str)
        ensures
            r@ == self.view_spec(),
    {
        self.0.as_str()
    }
}

/// The full "path" to an S3 object: its bucket and its key.
#[derive(Debug)]
pub struct S3Location(Bucket, ObjectKey);

impl S3Location {
    /// The bucket part of the location.
    pub closed spec fn bucket_spec(self) -> Seq<char> {
        self.0.view_spec()
    }

    /// The key part of the location.
    pub closed spec fn key_spec(self) -> Seq<char> {
        self.1.view_spec()
    }

    /// A location from a bucket and an object key.
    pub fn new(bucket: Bucket, key: ObjectKey) -> (r: Self)
        ensures
            r.bucket_spec() == bucket.view_spec(),
            r.key_spec() == key.view_spec(),
    {
        S3Location(bucket, key)
    }

    /// The bucket of this location.
    pub fn bucket(&self) -> (r: &Bucket)
        ensures
            r.view_spec() == self.bucket_spec(),
    {
        &self.0
    }

    /// The key of this location.
    pub fn key(&self) -> (r: &ObjectKey)
        ensures
            r.view_spec() == self.key_spec(),
    {
        &self.1
    }

    /// Turns this location into its two components.
    pub fn into_inner(self) -> (r: (Bucket, ObjectKey))
        ensures
            r.0.view_spec() == self.bucket_spec(),
            r.1.view_spec() == self.key_spec(),
    {
        (self.0, self.1)
    }
}

/// Ties an S3-style client value to the download core.
///
/// The wrapped client is opaque here; the host implements the actual
/// size queries and range fetches against it.
#[derive(Debug)]
pub struct S3ClientWrapper<C>(C);

impl<C> S3ClientWrapper<C> {
    /// The wrapped client.
    pub closed spec fn client_spec(self) -> C {
        self.0
    }

    /// Wraps a client value.
    pub fn from_client(client: C) -> (r: Self)
        ensures
            r.client_spec() == client,
    {
        S3ClientWrapper(client)
    }

    /// Builds a downloader over this client; fails if the configuration
    /// is not valid.
    pub fn condow(self, config: Config) -> (r: Result<Condow<S3ClientWrapper<C>>, CondowError>)
        ensures
            (r is Ok <==> config.valid_spec()),
            (r matches Ok(c) ==> c.config_spec() == config && c.client_spec().client_spec()
                == self.client_spec()),
    {
        Condow::new(self, config)
    }

    /// The wrapped client.
    pub fn into_inner(self) -> (r: C)
        ensures
            r == self.client_spec(),
    {
        self.0
    }
}

/// Classifies an HTTP response status into a download error: 404 is
/// `NotFound`, 401 and 403 are `AccessDenied`, a server error is
/// `Remote`, anything else is `Other`; the message passes through.
pub fn classify_http_status(status: u16, message: &str) -> (r: CondowError)
    ensures
        r.msg_spec() == message@,
        r.kind_spec() == (if status == 404 {
            crate::errors::CondowErrorKind::NotFound
        } else if status == 401 || status == 403 {
            crate::errors::CondowErrorKind::AccessDenied
        } else if 500 <= status <= 599 {
            crate::errors::CondowErrorKind::Remote
        } else {
            crate::errors::CondowErrorKind::Other
        }),
{
    if status == 404 {
        CondowError::new_not_found(message)
    } else if status == 401 || status == 403 {
        CondowError::new_access_denied(message)
    } else if 500 <= status && status <= 599 {
        CondowError::new_remote(message)
    } else {
        CondowError::new_other(message)
    }
}

} // verus!
