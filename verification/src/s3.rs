//! The S3 client, held together with the settings it was built from.

use aws_sdk_s3::config::{Builder, Credentials, Region};
use vstd::prelude::*;

verus! {

#[verifier::external_type_specification]
#[verifier::external_body]
pub struct ExS3Client(aws_sdk_s3::Client);

/// `Client` derives `Clone`; its only field is an `Arc` of the client's handle,
/// so a clone shares the handle and is the same client.
pub assume_specification[ <aws_sdk_s3::Client as Clone>::clone ](client: &aws_sdk_s3::Client) -> (copy: aws_sdk_s3::Client)
    ensures
        copy == *client,
;

/// What a client was configured with: the endpoint URL, the signing region,
/// the static credentials, and whether buckets are addressed by path.
pub struct ClientSettings {
    pub endpoint: Seq<char>,
    pub region: Seq<char>,
    pub access_key: Seq<char>,
    pub secret_key: Seq<char>,
    pub path_style: bool,
}

/// An `aws_sdk_s3::Client` and the settings that it was built from. Only
/// `s3_client` makes one, so the two cannot come apart. The settings are ghost:
/// at run time the credentials live only inside the client.
pub struct S3Client {
    client: aws_sdk_s3::Client,
    settings: Ghost<ClientSettings>,
}

impl S3Client {
    /// The client handle.
    pub closed spec fn handle(&self) -> aws_sdk_s3::Client {
        self.client
    }

    /// The settings that the client was built from.
    pub closed spec fn settings(&self) -> ClientSettings {
        self.settings@
    }

    /// The client handle.
    pub fn client(&self) -> (client: &aws_sdk_s3::Client)
        ensures
            *client == self.handle(),
    {
        &self.client
    }
}

impl Clone for S3Client {
    fn clone(&self) -> (copy: S3Client)
        ensures
            copy.handle() == self.handle(),
            copy.settings() == self.settings(),
    {
        S3Client { client: self.client.clone(), settings: Ghost(self.settings@) }
    }
}

/// Builds an `aws_sdk_s3::Client` with `aws_sdk_s3::config::Builder`: latest
/// behavior version, `Region::new(region)`, static `Credentials::new(access_key,
/// secret_key, None, None, provider)`, `endpoint_url(endpoint)` and
/// `force_path_style(path_style)`, then `Client::from_conf`, and records these
/// settings as ghost state beside the client. Claimed: the recorded settings
/// are the arguments. The client handle itself is opaque and gets no name,
/// since each call makes a new one. The strings move into the configuration;
/// the SDK's `Credentials` zeroize the keys when dropped. `from_conf` panics
/// only on a configuration without a behavior version, or with retries,
/// timeouts or identity caching but no sleep implementation and time source;
/// this one has a behavior version, and `rt-tokio` supplies both.
#[verifier::external_body]
pub(crate) fn s3_client(
    endpoint: String,
    region: String,
    access_key: String,
    secret_key: String,
    path_style: bool,
    provider: &'static str,
) -> (client: S3Client)
    ensures
        client.settings() == (ClientSettings {
            endpoint: endpoint@,
            region: region@,
            access_key: access_key@,
            secret_key: secret_key@,
            path_style,
        }),
{
    let settings = Ghost(ClientSettings {
        endpoint: endpoint@,
        region: region@,
        access_key: access_key@,
        secret_key: secret_key@,
        path_style,
    });
    let credentials = Credentials::new(access_key, secret_key, None, None, provider);
    let config = Builder::new().behavior_version_latest().region(Region::new(region))
        .credentials_provider(credentials).endpoint_url(endpoint)
        .force_path_style(path_style).build();
    S3Client { client: aws_sdk_s3::Client::from_conf(config), settings }
}

} // verus!
