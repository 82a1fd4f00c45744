//! The entities of a routing configuration and the commands that change it.

use crate::value::Value;
use vstd::prelude::*;
use vstd::std_specs::cmp::PartialEqSpecImpl;

verus! {

/// One backend endpoint serving an application.
#[derive(Debug, Hash)]
pub struct Instance {
    pub app_id: String,
    pub ip_address: String,
    pub port: u16,
}

/// The model of an [`Instance`].
pub struct InstanceView {
    pub app_id: Seq<char>,
    pub ip_address: Seq<char>,
    pub port: u16,
}

/// A plain-HTTP routing rule: a virtual host and a path prefix, mapped to an
/// application.
#[derive(Debug, Hash)]
pub struct HttpFront {
    pub app_id: String,
    pub hostname: String,
    pub path_begin: String,
}

/// The model of an [`HttpFront`].
pub struct HttpFrontView {
    pub app_id: Seq<char>,
    pub hostname: Seq<char>,
    pub path_begin: Seq<char>,
}

/// The identity of a certificate: a digest of its leaf certificate.
#[derive(Debug, Hash)]
pub struct CertFingerprint(pub Vec<u8>);

/// An HTTPS routing rule, which names its certificate by fingerprint.
#[derive(Debug, Hash)]
pub struct HttpsFront {
    pub app_id: String,
    pub hostname: String,
    pub path_begin: String,
    pub fingerprint: CertFingerprint,
}

/// The model of an [`HttpsFront`].
pub struct HttpsFrontView {
    pub app_id: Seq<char>,
    pub hostname: Seq<char>,
    pub path_begin: Seq<char>,
    pub fingerprint: Seq<u8>,
}

/// A leaf certificate, its chain of intermediate certificates, and its
/// private key, each in PEM.
#[derive(Debug, Hash)]
pub struct CertificateAndKey {
    pub certificate: String,
    pub certificate_chain: Vec<String>,
    pub key: String,
}

/// The model of a [`CertificateAndKey`].
pub struct CertificateAndKeyView {
    pub certificate: Seq<char>,
    pub certificate_chain: Seq<Seq<char>>,
    pub key: Seq<char>,
}

/// A command sent to a proxy. The configuration state follows the first
/// eight kinds and ignores the others.
#[derive(Debug, Hash)]
pub enum Order {
    AddHttpFront(HttpFront),
    RemoveHttpFront(HttpFront),
    AddHttpsFront(HttpsFront),
    RemoveHttpsFront(HttpsFront),
    AddCertificate(CertificateAndKey),
    RemoveCertificate(CertFingerprint),
    AddInstance(Instance),
    RemoveInstance(Instance),
    SoftStop,
    HardStop,
    Status,
}

/// The model of an [`Order`].
pub enum OrderView {
    AddHttpFront(HttpFrontView),
    RemoveHttpFront(HttpFrontView),
    AddHttpsFront(HttpsFrontView),
    RemoveHttpsFront(HttpsFrontView),
    AddCertificate(CertificateAndKeyView),
    RemoveCertificate(Seq<u8>),
    AddInstance(InstanceView),
    RemoveInstance(InstanceView),
    SoftStop,
    HardStop,
    Status,
}

impl DeepView for Instance {
    type V = InstanceView;

    open spec fn deep_view(&self) -> InstanceView {
        InstanceView { app_id: self.app_id@, ip_address: self.ip_address@, port: self.port }
    }
}

impl View for Instance {
    type V = InstanceView;

    open spec fn view(&self) -> InstanceView {
        self.deep_view()
    }
}

impl Value for Instance {
    fn same(&self, other: &Self) -> (b: bool) {
        self.app_id.same(&other.app_id) && self.ip_address.same(&other.ip_address) && self.port
            == other.port
    }

    fn duplicate(&self) -> (copy: Self) {
        Instance {
            app_id: self.app_id.duplicate(),
            ip_address: self.ip_address.duplicate(),
            port: self.port,
        }
    }
}

impl DeepView for HttpFront {
    type V = HttpFrontView;

    open spec fn deep_view(&self) -> HttpFrontView {
        HttpFrontView {
            app_id: self.app_id@,
            hostname: self.hostname@,
            path_begin: self.path_begin@,
        }
    }
}

impl View for HttpFront {
    type V = HttpFrontView;

    open spec fn view(&self) -> HttpFrontView {
        self.deep_view()
    }
}

impl Value for HttpFront {
    fn same(&self, other: &Self) -> (b: bool) {
        self.app_id.same(&other.app_id) && self.hostname.same(&other.hostname)
            && self.path_begin.same(&other.path_begin)
    }

    fn duplicate(&self) -> (copy: Self) {
        HttpFront {
            app_id: self.app_id.duplicate(),
            hostname: self.hostname.duplicate(),
            path_begin: self.path_begin.duplicate(),
        }
    }
}

impl DeepView for CertFingerprint {
    type V = Seq<u8>;

    open spec fn deep_view(&self) -> Seq<u8> {
        self.0@
    }
}

impl View for CertFingerprint {
    type V = Seq<u8>;

    open spec fn view(&self) -> Seq<u8> {
        self.deep_view()
    }
}

impl Value for CertFingerprint {
    fn same(&self, other: &Self) -> (b: bool) {
        proof {
            assert(self.0.deep_view() =~= self.0@);
            assert(other.0.deep_view() =~= other.0@);
        }
        self.0.same(&other.0)
    }

    fn duplicate(&self) -> (copy: Self) {
        let bytes = self.0.duplicate();
        proof {
            assert(self.0.deep_view() =~= self.0@);
            assert(bytes.deep_view() =~= bytes@);
        }
        CertFingerprint(bytes)
    }
}

impl DeepView for HttpsFront {
    type V = HttpsFrontView;

    open spec fn deep_view(&self) -> HttpsFrontView {
        HttpsFrontView {
            app_id: self.app_id@,
            hostname: self.hostname@,
            path_begin: self.path_begin@,
            fingerprint: self.fingerprint@,
        }
    }
}

impl View for HttpsFront {
    type V = HttpsFrontView;

    open spec fn view(&self) -> HttpsFrontView {
        self.deep_view()
    }
}

impl Value for HttpsFront {
    fn same(&self, other: &Self) -> (b: bool) {
        self.app_id.same(&other.app_id) && self.hostname.same(&other.hostname)
            && self.path_begin.same(&other.path_begin) && self.fingerprint.same(
            &other.fingerprint,
        )
    }

    fn duplicate(&self) -> (copy: Self) {
        HttpsFront {
            app_id: self.app_id.duplicate(),
            hostname: self.hostname.duplicate(),
            path_begin: self.path_begin.duplicate(),
            fingerprint: self.fingerprint.duplicate(),
        }
    }
}

impl DeepView for CertificateAndKey {
    type V = CertificateAndKeyView;

    open spec fn deep_view(&self) -> CertificateAndKeyView {
        CertificateAndKeyView {
            certificate: self.certificate@,
            certificate_chain: self.certificate_chain.deep_view(),
            key: self.key@,
        }
    }
}

impl View for CertificateAndKey {
    type V = CertificateAndKeyView;

    open spec fn view(&self) -> CertificateAndKeyView {
        self.deep_view()
    }
}

impl Value for CertificateAndKey {
    fn same(&self, other: &Self) -> (b: bool) {
        self.certificate.same(&other.certificate) && self.certificate_chain.same(
            &other.certificate_chain,
        ) && self.key.same(&other.key)
    }

    fn duplicate(&self) -> (copy: Self) {
        CertificateAndKey {
            certificate: self.certificate.duplicate(),
            certificate_chain: self.certificate_chain.duplicate(),
            key: self.key.duplicate(),
        }
    }
}

impl DeepView for Order {
    type V = OrderView;

    open spec fn deep_view(&self) -> OrderView {
        match self {
            Order::AddHttpFront(f) => OrderView::AddHttpFront(f@),
            Order::RemoveHttpFront(f) => OrderView::RemoveHttpFront(f@),
            Order::AddHttpsFront(f) => OrderView::AddHttpsFront(f@),
            Order::RemoveHttpsFront(f) => OrderView::RemoveHttpsFront(f@),
            Order::AddCertificate(c) => OrderView::AddCertificate(c@),
            Order::RemoveCertificate(p) => OrderView::RemoveCertificate(p@),
            Order::AddInstance(i) => OrderView::AddInstance(i@),
            Order::RemoveInstance(i) => OrderView::RemoveInstance(i@),
            Order::SoftStop => OrderView::SoftStop,
            Order::HardStop => OrderView::HardStop,
            Order::Status => OrderView::Status,
        }
    }
}

impl View for Order {
    type V = OrderView;

    open spec fn view(&self) -> OrderView {
        self.deep_view()
    }
}

impl Value for Order {
    fn same(&self, other: &Self) -> (b: bool) {
        match (self, other) {
            (Order::AddHttpFront(a), Order::AddHttpFront(b)) => a.same(b),
            (Order::RemoveHttpFront(a), Order::RemoveHttpFront(b)) => a.same(b),
            (Order::AddHttpsFront(a), Order::AddHttpsFront(b)) => a.same(b),
            (Order::RemoveHttpsFront(a), Order::RemoveHttpsFront(b)) => a.same(b),
            (Order::AddCertificate(a), Order::AddCertificate(b)) => a.same(b),
            (Order::RemoveCertificate(a), Order::RemoveCertificate(b)) => a.same(b),
            (Order::AddInstance(a), Order::AddInstance(b)) => a.same(b),
            (Order::RemoveInstance(a), Order::RemoveInstance(b)) => a.same(b),
            (Order::SoftStop, Order::SoftStop) => true,
            (Order::HardStop, Order::HardStop) => true,
            (Order::Status, Order::Status) => true,
            _ => false,
        }
    }

    fn duplicate(&self) -> (copy: Self) {
        match self {
            Order::AddHttpFront(f) => Order::AddHttpFront(f.duplicate()),
            Order::RemoveHttpFront(f) => Order::RemoveHttpFront(f.duplicate()),
            Order::AddHttpsFront(f) => Order::AddHttpsFront(f.duplicate()),
            Order::RemoveHttpsFront(f) => Order::RemoveHttpsFront(f.duplicate()),
            Order::AddCertificate(c) => Order::AddCertificate(c.duplicate()),
            Order::RemoveCertificate(p) => Order::RemoveCertificate(p.duplicate()),
            Order::AddInstance(i) => Order::AddInstance(i.duplicate()),
            Order::RemoveInstance(i) => Order::RemoveInstance(i.duplicate()),
            Order::SoftStop => Order::SoftStop,
            Order::HardStop => Order::HardStop,
            Order::Status => Order::Status,
        }
    }
}

impl Clone for Instance {
    fn clone(&self) -> (copy: Self)
        ensures
            copy@ == self@,
    {
        self.duplicate()
    }
}

impl PartialEq for Instance {
    fn eq(&self, other: &Self) -> (b: bool) {
        self.same(other)
    }
}

impl PartialEqSpecImpl for Instance {
    open spec fn obeys_eq_spec() -> bool {
        true
    }

    open spec fn eq_spec(&self, other: &Self) -> bool {
        self@ == other@
    }
}

impl Eq for Instance {

}

impl Clone for HttpFront {
    fn clone(&self) -> (copy: Self)
        ensures
            copy@ == self@,
    {
        self.duplicate()
    }
}

impl PartialEq for HttpFront {
    fn eq(&self, other: &Self) -> (b: bool) {
        self.same(other)
    }
}

impl PartialEqSpecImpl for HttpFront {
    open spec fn obeys_eq_spec() -> bool {
        true
    }

    open spec fn eq_spec(&self, other: &Self) -> bool {
        self@ == other@
    }
}

impl Eq for HttpFront {

}

impl Clone for CertFingerprint {
    fn clone(&self) -> (copy: Self)
        ensures
            copy@ == self@,
    {
        self.duplicate()
    }
}

impl PartialEq for CertFingerprint {
    fn eq(&self, other: &Self) -> (b: bool) {
        self.same(other)
    }
}

impl PartialEqSpecImpl for CertFingerprint {
    open spec fn obeys_eq_spec() -> bool {
        true
    }

    open spec fn eq_spec(&self, other: &Self) -> bool {
        self@ == other@
    }
}

impl Eq for CertFingerprint {

}

impl Clone for HttpsFront {
    fn clone(&self) -> (copy: Self)
        ensures
            copy@ == self@,
    {
        self.duplicate()
    }
}

impl PartialEq for HttpsFront {
    fn eq(&self, other: &Self) -> (b: bool) {
        self.same(other)
    }
}

impl PartialEqSpecImpl for HttpsFront {
    open spec fn obeys_eq_spec() -> bool {
        true
    }

    open spec fn eq_spec(&self, other: &Self) -> bool {
        self@ == other@
    }
}

impl Eq for HttpsFront {

}

impl Clone for CertificateAndKey {
    fn clone(&self) -> (copy: Self)
        ensures
            copy@ == self@,
    {
        self.duplicate()
    }
}

impl PartialEq for CertificateAndKey {
    fn eq(&self, other: &Self) -> (b: bool) {
        self.same(other)
    }
}

impl PartialEqSpecImpl for CertificateAndKey {
    open spec fn obeys_eq_spec() -> bool {
        true
    }

    open spec fn eq_spec(&self, other: &Self) -> bool {
        self@ == other@
    }
}

impl Eq for CertificateAndKey {

}

impl Clone for Order {
    fn clone(&self) -> (copy: Self)
        ensures
            copy@ == self@,
    {
        self.duplicate()
    }
}

impl PartialEq for Order {
    fn eq(&self, other: &Self) -> (b: bool) {
        self.same(other)
    }
}

impl PartialEqSpecImpl for Order {
    open spec fn obeys_eq_spec() -> bool {
        true
    }

    open spec fn eq_spec(&self, other: &Self) -> bool {
        self@ == other@
    }
}

impl Eq for Order {

}

} // verus!
