//! What is reported when a client's certificate is rejected.
use vstd::prelude::*;
use vstd::string::*;

verus! {

/// What is reported of a certificate.
#[derive(Debug)]
pub struct CertificateDetails {
    pub subject: String,
    pub issuer: String,
    pub not_before: String,
    pub not_after: String,
    pub sig_alg: String,
}

/// What `CertificateDetails` holds.
#[verifier::ext_equal]
pub struct DetailsView {
    pub subject: Seq<char>,
    pub issuer: Seq<char>,
    pub not_before: Seq<char>,
    pub not_after: Seq<char>,
    pub sig_alg: Seq<char>,
}

impl View for CertificateDetails {
    type V = DetailsView;

    open spec fn view(&self) -> DetailsView {
        DetailsView {
            subject: self.subject@,
            issuer: self.issuer@,
            not_before: self.not_before@,
            not_after: self.not_after@,
            sig_alg: self.sig_alg@,
        }
    }
}

/// A name for what `x509_parser::parse_x509_certificate` makes of the bytes of
/// a certificate, written as text; `None` where they are no certificate.
pub uninterp spec fn certificate_says(der: Seq<u8>) -> Option<DetailsView>;

/// Calls `x509_parser::parse_x509_certificate` and writes the subject, the
/// issuer, the validity and the signature algorithm as text. What comes out is
/// a function of the bytes alone.
#[verifier::external_body]
fn read_certificate(der: &[u8]) -> (r: Option<CertificateDetails>)
    ensures
        match r {
            Some(d) => certificate_says(der@) == Some(d@),
            None => certificate_says(der@) is None,
        },
{
    match x509_parser::parse_x509_certificate(der) {
        Ok((_, cert)) => Some(CertificateDetails {
            subject: cert.subject().to_string(),
            issuer: cert.issuer().to_string(),
            not_before: cert.validity().not_before.to_string(),
            not_after: cert.validity().not_after.to_string(),
            sig_alg: format!("{:?}", cert.signature_algorithm.algorithm),
        }),
        Err(_) => None,
    }
}

/// The report about a rejected certificate. The number of intermediate
/// certificates is only reported along with the details.
#[derive(Debug)]
pub struct RejectionReport {
    pub details: Option<(CertificateDetails, usize)>,
    pub error: String,
    pub message: &'static str,
}

/// What a report holds.
#[verifier::ext_equal]
pub struct ReportView {
    pub details: Option<(DetailsView, nat)>,
    pub error: Seq<char>,
    pub message: Seq<char>,
}

impl View for RejectionReport {
    type V = ReportView;

    open spec fn view(&self) -> ReportView {
        ReportView {
            details: match self.details {
                Some((d, n)) => Some((d@, n as nat)),
                None => None,
            },
            error: self.error@,
            message: self.message@,
        }
    }
}

/// The report about a rejected certificate of which so much could be read.
pub open spec fn report_on(
    details: Option<DetailsView>,
    presented_intermediates: nat,
    error: Seq<char>,
) -> ReportView {
    match details {
        Some(d) => ReportView {
            details: Some((d, presented_intermediates)),
            error,
            message: "client cert rejected"@,
        },
        None => ReportView {
            details: None,
            error,
            message: "client cert rejected (cert parse failed)"@,
        },
    }
}

/// The report about a rejected certificate of which so much could be read.
pub fn report_details(
    details: Option<CertificateDetails>,
    presented_intermediates: usize,
    error: String,
) -> (r: RejectionReport)
    ensures
        r@ == report_on(
            match details {
                Some(d) => Some(d@),
                None => None,
            },
            presented_intermediates as nat,
            error@,
        ),
{
    match details {
        Some(d) => RejectionReport {
            details: Some((d, presented_intermediates)),
            error,
            message: "client cert rejected",
        },
        None => RejectionReport {
            details: None,
            error,
            message: "client cert rejected (cert parse failed)",
        },
    }
}

/// The report about a rejected certificate.
pub fn report_rejection(der: &[u8], presented_intermediates: usize, error: String) -> (r:
    RejectionReport)
    ensures
        r@ == report_on(certificate_says(der@), presented_intermediates as nat, error@),
{
    let details = read_certificate(der);
    report_details(details, presented_intermediates, error)
}

} // verus!
