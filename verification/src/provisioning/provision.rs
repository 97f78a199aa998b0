//! Provisioning of the gateway.
//!
//! The gateway's id is the serial number of its security chip. A certificate is
//! requested for it and stored beside the configuration.

use crate::text::{hex_encode, hex_of, text2};
use rcgen::{CertificateParams, DistinguishedName, DnType, KeyPair};
use vstd::prelude::*;
use vstd::string::StringExecFns;

verus! {

#[derive(Debug)]
pub struct ProvisioningConfig {
    pub gateway_id: String,
    pub site_id: String,
    /// In MHz: 915 or 868.
    pub lora_freq: u32,
    pub ca_endpoint: String,
}

impl Default for ProvisioningConfig {
    fn default() -> (r: Self)
        ensures
            r.gateway_id@ == Seq::<char>::empty(),
            r.site_id@ == "SITE-001"@,
            r.lora_freq == 915,
            r.ca_endpoint@ == "https://api.floatgateway.com/v1/provision"@,
    {
        ProvisioningConfig {
            gateway_id: String::new(),
            site_id: String::from_str("SITE-001"),
            lora_freq: 915,
            ca_endpoint: String::from_str("https://api.floatgateway.com/v1/provision"),
        }
    }
}

#[derive(Debug)]
pub enum ProvisioningStatus {
    NotProvisioned,
    Provisioning,
    Provisioned,
    Failed(String),
}

#[derive(Debug)]
pub enum ProvisioningError {
    AteccError(String),
    Serialization(String),
    Deserialization(String),
    CaRequest(String),
    CaResponse(String),
    FileWrite(String),
    FileRead(String),
    FileDelete(String),
    ConfigNotMounted,
    NotProvisioned,
}

impl ProvisioningError {
    /// The error in words.
    pub fn message(&self) -> (r: String)
        ensures
            r@ == match self {
                ProvisioningError::AteccError(s) => "ATECC608B error: "@ + s@,
                ProvisioningError::Serialization(s) => "Serialization error: "@ + s@,
                ProvisioningError::Deserialization(s) => "Deserialization error: "@ + s@,
                ProvisioningError::CaRequest(s) => "CA request error: "@ + s@,
                ProvisioningError::CaResponse(s) => "CA response error: "@ + s@,
                ProvisioningError::FileWrite(s) => "File write error: "@ + s@,
                ProvisioningError::FileRead(s) => "File read error: "@ + s@,
                ProvisioningError::FileDelete(s) => "File delete error: "@ + s@,
                ProvisioningError::ConfigNotMounted => "Config partition not mounted"@,
                ProvisioningError::NotProvisioned => "Gateway not provisioned"@,
            },
    {
        match self {
            ProvisioningError::AteccError(s) => text2("ATECC608B error: ", s.as_str()),
            ProvisioningError::Serialization(s) => text2("Serialization error: ", s.as_str()),
            ProvisioningError::Deserialization(s) => text2("Deserialization error: ", s.as_str()),
            ProvisioningError::CaRequest(s) => text2("CA request error: ", s.as_str()),
            ProvisioningError::CaResponse(s) => text2("CA response error: ", s.as_str()),
            ProvisioningError::FileWrite(s) => text2("File write error: ", s.as_str()),
            ProvisioningError::FileRead(s) => text2("File read error: ", s.as_str()),
            ProvisioningError::FileDelete(s) => text2("File delete error: ", s.as_str()),
            ProvisioningError::ConfigNotMounted => String::from_str("Config partition not mounted"),
            ProvisioningError::NotProvisioned => String::from_str("Gateway not provisioned"),
        }
    }
}

/// The names in a request for a certificate.
#[derive(Debug, Clone, Copy)]
pub struct Subject<'a> {
    pub common_name: &'a str,
    pub organization: &'a str,
    pub unit: &'a str,
}

/// Whether a text is that of a request for a certificate in PEM with the given body,
/// where lines end in the given way.
pub open spec fn request_with(s: Seq<char>, body: Seq<char>, line_end: Seq<char>) -> bool {
    s == "-----BEGIN CERTIFICATE REQUEST-----"@ + line_end + body
        + "-----END CERTIFICATE REQUEST-----"@ + line_end
}

/// Whether a text is a request for a certificate in PEM, as far as its first and its
/// last line tell: there is a body between them. Lines end as they do on the machine.
pub open spec fn is_request(s: Seq<char>) -> bool {
    exists|body: Seq<char>, line_end: Seq<char>|
        {
            &&& #[trigger] request_with(s, body, line_end)
            &&& body.len() > 0
            &&& line_end == "\n"@ || line_end == "\r\n"@
        }
}

/// `rcgen`: a new key pair (`KeyPair::generate`) and a request in PEM for a
/// certificate of the subject (`CertificateParams::serialize_request`,
/// `CertificateSigningRequest::pem`). The text is a body between the two labels of a
/// request. The body is not empty; nothing more is said of it, since it holds a key drawn
/// by chance, nor of when a request can be made.
#[verifier::external_body]
fn certificate_request(subject: &Subject) -> (r: Option<String>)
    ensures
        r is Some ==> is_request((r->0)@),
{
    let mut names = DistinguishedName::new();
    names.push(DnType::CommonName, subject.common_name);
    names.push(DnType::OrganizationName, subject.organization);
    names.push(DnType::OrganizationalUnitName, subject.unit);
    let mut params = CertificateParams::default();
    params.distinguished_name = names;
    let key = KeyPair::generate().ok()?;
    params.serialize_request(&key).ok()?.pem().ok()
}

/// Whether a gateway is provisioned: both files are there.
pub fn is_provisioned(has_config: bool, has_certificate: bool) -> (r: bool)
    ensures
        r <==> has_config && has_certificate,
{
    has_config && has_certificate
}

pub struct ProvisioningService {
    config: ProvisioningConfig,
    status: ProvisioningStatus,
}

impl ProvisioningService {
    /// The configuration.
    pub closed spec fn configured(&self) -> ProvisioningConfig {
        self.config
    }

    /// How far provisioning has come.
    pub closed spec fn reached(&self) -> ProvisioningStatus {
        self.status
    }

    /// The service of the gateway whose chip has the given serial number.
    pub fn new(serial: &[u8], has_config: bool, has_certificate: bool) -> (r: Self)
        ensures
            r.configured().gateway_id@ == hex_of(serial@),
            r.configured().site_id@ == "SITE-001"@,
            r.configured().lora_freq == 915,
            r.configured().ca_endpoint@ == "https://api.floatgateway.com/v1/provision"@,
            r.reached() == (if has_config && has_certificate {
                ProvisioningStatus::Provisioned
            } else {
                ProvisioningStatus::NotProvisioned
            }),
    {
        let mut config = ProvisioningConfig::default();
        config.gateway_id = hex_encode(serial);
        let status = if is_provisioned(has_config, has_certificate) {
            ProvisioningStatus::Provisioned
        } else {
            ProvisioningStatus::NotProvisioned
        };
        ProvisioningService { config, status }
    }

    /// The gateway's id: the chip's serial number in hexadecimal.
    pub fn gateway_id(&self) -> (r: &str)
        ensures
            r@ == self.configured().gateway_id@,
    {
        self.config.gateway_id.as_str()
    }

    pub fn config(&self) -> (r: &ProvisioningConfig)
        ensures
            *r == self.configured(),
    {
        &self.config
    }

    pub fn status(&self) -> (r: &ProvisioningStatus)
        ensures
            *r == self.reached(),
    {
        &self.status
    }

    /// The names that a certificate of this gateway is made out to.
    pub fn subject(&self) -> (r: Subject<'_>)
        ensures
            r.common_name@ == self.configured().gateway_id@,
            r.organization@ == "Float Gateway"@,
            r.unit@ == "IoT Gateway"@,
    {
        Subject {
            common_name: self.config.gateway_id.as_str(),
            organization: "Float Gateway",
            unit: "IoT Gateway",
        }
    }

    /// A request for a certificate of this gateway, in PEM, for a new key. The key
    /// is drawn by chance, so two requests differ.
    pub fn generate_csr(&self) -> (r: Result<String, ProvisioningError>)
        ensures
            match r {
                Ok(pem) => is_request(pem@),
                Err(e) => e is Serialization,
            },
    {
        match certificate_request(&self.subject()) {
            Some(pem) => Ok(pem),
            None => Err(
                ProvisioningError::Serialization(String::from_str("no certificate request")),
            ),
        }
    }

    /// Takes note that provisioning has begun.
    pub fn begin(&mut self)
        ensures
            final(self).reached() == ProvisioningStatus::Provisioning,
            final(self).configured() == old(self).configured(),
    {
        self.status = ProvisioningStatus::Provisioning;
    }

    /// Takes note that certificate and configuration are stored.
    pub fn complete(&mut self)
        ensures
            final(self).reached() == ProvisioningStatus::Provisioned,
            final(self).configured() == old(self).configured(),
    {
        self.status = ProvisioningStatus::Provisioned;
    }
}

/// Gateways with different serial numbers have different ids.
pub proof fn ids_differ(a: Seq<u8>, b: Seq<u8>)
    ensures
        hex_of(a) == hex_of(b) <==> a == b,
{
    crate::text::hex_roundtrip(a);
    crate::text::hex_roundtrip(b);
}

} // verus!
