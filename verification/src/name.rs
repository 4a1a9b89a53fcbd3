//! Domain names as sequences of labels.
//!
//! A name is held as the bytes of its labels, leftmost label first, together
//! with the flag that says whether it is fully qualified. Comparison, case
//! folding and the zone relation are defined over that model and verified;
//! reading a name from text and writing it back are left to `trust-dns-proto`.

use std::str::FromStr;
use vstd::prelude::*;

verus! {

/// The longest label the DNS allows, in bytes.
pub const MAX_LABEL_LEN: usize = 63;

/// The longest name the DNS allows: label bytes plus one separator per label.
pub const MAX_NAME_LEN: usize = 255;

/// The mathematical value of a [`DomainName`].
pub struct NameView {
    pub labels: Seq<Seq<u8>>,
    pub fqdn: bool,
}

/// The lower-case form of one byte: ASCII capitals move to their small
/// letters, every other byte stays.
pub open spec fn lower_byte(b: u8) -> u8 {
    if 0x41 <= b && b <= 0x5a {
        (b + 0x20) as u8
    } else {
        b
    }
}

/// The lower-case form of one label.
pub open spec fn lower_label(label: Seq<u8>) -> Seq<u8> {
    Seq::new(label.len(), |i: int| lower_byte(label[i]))
}

/// The lower-case form of a sequence of labels.
pub open spec fn lower_labels(labels: Seq<Seq<u8>>) -> Seq<Seq<u8>> {
    Seq::new(labels.len(), |i: int| lower_label(labels[i]))
}

/// Whether a sequence of labels is in lower case already.
pub open spec fn is_lower(labels: Seq<Seq<u8>>) -> bool {
    lower_labels(labels) == labels
}

/// The number of label bytes in the first `n` labels.
pub open spec fn label_bytes(labels: Seq<Seq<u8>>, n: int) -> int
    decreases n,
{
    if n <= 0 {
        0
    } else {
        label_bytes(labels, n - 1) + labels[n - 1].len()
    }
}

/// The length of a name as the DNS counts it: the label bytes and one
/// separator for each label.
pub open spec fn wire_len(labels: Seq<Seq<u8>>) -> int {
    label_bytes(labels, labels.len() as int) + labels.len()
}

/// Labels that the DNS accepts: each from 1 to 63 bytes long, all of them
/// together within 255 bytes.
pub open spec fn labels_wf(labels: Seq<Seq<u8>>) -> bool {
    &&& forall|i: int| 0 <= i < labels.len() ==> 1 <= #[trigger] labels[i].len() <= MAX_LABEL_LEN
    &&& wire_len(labels) <= MAX_NAME_LEN
}

/// `zone` is an ancestor of `name`, or `name` itself: the labels of `zone`
/// are the last labels of `name`.
pub open spec fn is_zone_of(zone: Seq<Seq<u8>>, name: Seq<Seq<u8>>) -> bool {
    &&& zone.len() <= name.len()
    &&& forall|i: int| 0 <= i < zone.len() ==> zone[i] == #[trigger] name[name.len() - zone.len() + i]
}

/// What `trust_dns_proto::rr::Name::from_str` makes of a text: the labels and
/// the fully-qualified flag of the name, or `None` where it refuses the text.
pub uninterp spec fn spec_parse_name(text: Seq<char>) -> Option<(Seq<Seq<u8>>, bool)>;

/// What the `Display` impl of `trust_dns_proto::rr::Name` writes for a name
/// with the given labels and fully-qualified flag.
pub uninterp spec fn spec_name_text(labels: Seq<Seq<u8>>, fqdn: bool) -> Seq<char>;

/// The error type of `trust-dns-proto`.
#[verifier::external_type_specification]
#[verifier::external_body]
pub struct ExProtoError(trust_dns_proto::error::ProtoError);

/// Why a text is no domain name.
#[derive(Debug, Clone, Copy, PartialEq, Eq, Structural)]
pub enum NameError {
    /// The text does not spell a domain name.
    Malformed,
}

/// A domain name.
pub struct DomainName {
    labels: Vec<Vec<u8>>,
    fqdn: bool,
}

/// The labels held in a vector, as a sequence of byte sequences.
pub open spec fn labels_of(v: Vec<Vec<u8>>) -> Seq<Seq<u8>> {
    Seq::new(v.len() as nat, |i: int| v[i]@)
}

impl View for DomainName {
    type V = NameView;

    closed spec fn view(&self) -> NameView {
        NameView { labels: labels_of(self.labels), fqdn: self.fqdn }
    }
}

proof fn lemma_label_bytes_monotone(labels: Seq<Seq<u8>>, i: int, j: int)
    requires
        0 <= i <= j,
    ensures
        label_bytes(labels, i) <= label_bytes(labels, j),
        0 <= label_bytes(labels, i),
    decreases j,
{
    if j > 0 {
        if i < j {
            lemma_label_bytes_monotone(labels, i, j - 1);
        } else {
            lemma_label_bytes_monotone(labels, i - 1, j - 1);
        }
    }
}

proof fn lemma_label_bytes_lower(labels: Seq<Seq<u8>>, n: int)
    requires
        0 <= n <= labels.len(),
    ensures
        label_bytes(lower_labels(labels), n) == label_bytes(labels, n),
    decreases n,
{
    if n > 0 {
        lemma_label_bytes_lower(labels, n - 1);
    }
}

/// Case folding keeps a name acceptable: no label changes its length.
pub proof fn lemma_lower_keeps_wf(labels: Seq<Seq<u8>>)
    requires
        labels_wf(labels),
    ensures
        labels_wf(lower_labels(labels)),
{
    lemma_label_bytes_lower(labels, labels.len() as int);
    assert forall|i: int| 0 <= i < lower_labels(labels).len() implies 1 <= (#[trigger] lower_labels(
        labels,
    )[i]).len() <= MAX_LABEL_LEN by {
        assert(lower_labels(labels)[i].len() == labels[i].len());
    }
}

/// Case folding twice is case folding once.
pub proof fn lemma_lower_idempotent(labels: Seq<Seq<u8>>)
    ensures
        is_lower(lower_labels(labels)),
{
    let once = lower_labels(labels);
    let twice = lower_labels(once);
    assert forall|i: int| 0 <= i < once.len() implies twice[i] == once[i] by {
        assert(twice[i] =~= once[i]);
    }
    assert(twice =~= once);
}

/// Every name is in its own zone.
pub proof fn lemma_zone_of_self(name: Seq<Seq<u8>>)
    ensures
        is_zone_of(name, name),
{
}

/// The root, which has no labels, is an ancestor of every name.
pub proof fn lemma_root_zone_of_all(name: Seq<Seq<u8>>)
    ensures
        is_zone_of(Seq::<Seq<u8>>::empty(), name),
{
}

/// The zone relation is transitive: an ancestor of an ancestor is an ancestor.
pub proof fn lemma_zone_of_transitive(a: Seq<Seq<u8>>, b: Seq<Seq<u8>>, c: Seq<Seq<u8>>)
    requires
        is_zone_of(a, b),
        is_zone_of(b, c),
    ensures
        is_zone_of(a, c),
{
    assert forall|i: int| 0 <= i < a.len() implies a[i] == #[trigger] c[c.len() - a.len() + i] by {
        let j = b.len() - a.len() + i;
        assert(a[i] == b[j]);
        assert(b[j] == c[c.len() - b.len() + j]);
    }
}

/// Two names that are each in the other's zone have the same labels.
pub proof fn lemma_zone_of_antisymmetric(a: Seq<Seq<u8>>, b: Seq<Seq<u8>>)
    requires
        is_zone_of(a, b),
        is_zone_of(b, a),
    ensures
        a == b,
{
    assert forall|i: int| 0 <= i < a.len() implies a[i] == b[i] by {
        assert(a[i] == b[b.len() - a.len() + i]);
    }
    assert(a =~= b);
}

fn copy_bytes(src: &Vec<u8>) -> (out: Vec<u8>)
    ensures
        out@ == src@,
{
    let mut out: Vec<u8> = Vec::new();
    let mut i: usize = 0;
    while i < src.len()
        invariant
            i <= src.len(),
            out@ == src@.subrange(0, i as int),
        decreases src.len() - i,
    {
        out.push(src[i]);
        i = i + 1;
        assert(out@ =~= src@.subrange(0, i as int));
    }
    assert(src@.subrange(0, src.len() as int) =~= src@);
    out
}

fn copy_labels(src: &Vec<Vec<u8>>) -> (out: Vec<Vec<u8>>)
    ensures
        labels_of(out) == labels_of(*src),
{
    let mut out: Vec<Vec<u8>> = Vec::new();
    let mut i: usize = 0;
    while i < src.len()
        invariant
            i <= src.len(),
            out.len() == i,
            forall|k: int| 0 <= k < i ==> (#[trigger] out[k])@ == src[k]@,
        decreases src.len() - i,
    {
        let label = copy_bytes(&src[i]);
        out.push(label);
        i = i + 1;
    }
    assert(labels_of(out) =~= labels_of(*src));
    out
}

fn to_lower_byte(b: u8) -> (out: u8)
    ensures
        out == lower_byte(b),
{
    if 0x41 <= b && b <= 0x5a {
        b + 0x20
    } else {
        b
    }
}

fn to_lower_label(src: &Vec<u8>) -> (out: Vec<u8>)
    ensures
        out@ == lower_label(src@),
{
    let mut out: Vec<u8> = Vec::new();
    let mut i: usize = 0;
    while i < src.len()
        invariant
            i <= src.len(),
            out.len() == i,
            forall|k: int| 0 <= k < i ==> #[trigger] out[k] == lower_byte(src[k]),
        decreases src.len() - i,
    {
        out.push(to_lower_byte(src[i]));
        i = i + 1;
    }
    assert(out@ =~= lower_label(src@));
    out
}

fn same_bytes(a: &Vec<u8>, b: &Vec<u8>) -> (same: bool)
    ensures
        same == (a@ == b@),
{
    if a.len() != b.len() {
        return false;
    }
    let mut i: usize = 0;
    while i < a.len()
        invariant
            i <= a.len(),
            a.len() == b.len(),
            forall|k: int| 0 <= k < i ==> a[k] == b[k],
        decreases a.len() - i,
    {
        if a[i] != b[i] {
            return false;
        }
        i = i + 1;
    }
    assert(a@ =~= b@);
    true
}

/// Reads a name with `trust_dns_proto::rr::Name::from_str` and hands out its
/// labels, in their order, and its fully-qualified flag. The contract names
/// that result; that the labels obey the DNS limits is what
/// `Label::from_raw_bytes` and `Name::extend_name` check on every label added.
#[verifier::external_body]
fn parse_name(text: &str) -> (out: Result<DomainName, trust_dns_proto::error::ProtoError>)
    ensures
        out is Ok <==> spec_parse_name(text@) is Some,
        out matches Ok(name) ==> {
            &&& spec_parse_name(text@) == Some((name@.labels, name@.fqdn))
            &&& labels_wf(name@.labels)
        },
{
    let name = trust_dns_proto::rr::Name::from_str(text)?;
    Ok(DomainName { labels: name.iter().map(|label| label.to_vec()).collect(), fqdn: name.is_fqdn() })
}

/// Writes a name with the `Display` impl of `trust_dns_proto::rr::Name`,
/// after building that name from the labels with `Name::from_labels`, which
/// accepts every sequence of labels within the DNS limits.
#[verifier::external_body]
fn format_name(labels: &Vec<Vec<u8>>, fqdn: bool) -> (out: String)
    requires
        labels_wf(labels_of(*labels)),
    ensures
        out@ == spec_name_text(labels_of(*labels), fqdn),
{
    let mut name = trust_dns_proto::rr::Name::from_labels(labels.iter().map(|label| label.as_slice()))
        .unwrap_or_default();
    name.set_fqdn(fqdn);
    name.to_string()
}

impl DomainName {
    /// Every name obeys the DNS limits on labels.
    #[verifier::type_invariant]
    closed spec fn inv(&self) -> bool {
        labels_wf(labels_of(self.labels))
    }

    /// The root name: no labels, fully qualified.
    pub fn root() -> (out: DomainName)
        ensures
            out@.labels.len() == 0,
            out@.fqdn,
    {
        let labels: Vec<Vec<u8>> = Vec::new();
        proof {
            reveal_with_fuel(label_bytes, 1);
        }
        DomainName { labels, fqdn: true }
    }

    /// Makes a name of the given labels, leftmost first, in the case they
    /// are written in. `None` where they break the DNS limits.
    pub fn from_labels(labels: Vec<Vec<u8>>, fqdn: bool) -> (out: Option<DomainName>)
        ensures
            out is Some <==> labels_wf(labels_of(labels)),
            out matches Some(name) ==> name@ == (NameView { labels: labels_of(labels), fqdn }),
    {
        let ghost all = labels_of(labels);
        let mut total: usize = labels.len();
        if total > MAX_NAME_LEN {
            proof {
                lemma_label_bytes_monotone(all, 0, all.len() as int);
            }
            return None;
        }
        let mut i: usize = 0;
        while i < labels.len()
            invariant
                i <= labels.len(),
                all == labels_of(labels),
                total == label_bytes(all, i as int) + all.len(),
                total <= MAX_NAME_LEN,
                forall|k: int| 0 <= k < i ==> 1 <= #[trigger] all[k].len() <= MAX_LABEL_LEN,
            decreases labels.len() - i,
        {
            let n = labels[i].len();
            assert(all[i as int].len() == n);
            if n < 1 || n > MAX_LABEL_LEN {
                return None;
            }
            if total + n > MAX_NAME_LEN {
                proof {
                    lemma_label_bytes_monotone(all, i as int + 1, all.len() as int);
                }
                return None;
            }
            total = total + n;
            i = i + 1;
        }
        Some(DomainName { labels, fqdn })
    }

    /// Reads a name from its text, as `trust-dns-proto` reads it, and folds
    /// it to lower case.
    pub fn from_str(text: &str) -> (out: Result<DomainName, NameError>)
        ensures
            match spec_parse_name(text@) {
                Some((labels, fqdn)) => out matches Ok(name) && name@ == (NameView {
                    labels: lower_labels(labels),
                    fqdn,
                }),
                None => out == Err::<DomainName, NameError>(NameError::Malformed),
            },
    {
        match parse_name(text) {
            Ok(name) => Ok(name.to_lowercase()),
            Err(_) => Err(NameError::Malformed),
        }
    }

    /// The text of the name, as `trust-dns-proto` writes it.
    pub fn to_text(&self) -> (out: String)
        ensures
            out@ == spec_name_text(self@.labels, self@.fqdn),
    {
        proof {
            use_type_invariant(self);
        }
        format_name(&self.labels, self.fqdn)
    }

    /// Whether the name is fully qualified.
    pub fn is_fqdn(&self) -> (out: bool)
        ensures
            out == self@.fqdn,
    {
        self.fqdn
    }

    /// Whether the name is the root.
    pub fn is_root(&self) -> (out: bool)
        ensures
            out == (self@.labels.len() == 0 && self@.fqdn),
    {
        self.labels.len() == 0 && self.fqdn
    }

    /// The number of labels.
    pub fn num_labels(&self) -> (out: usize)
        ensures
            out == self@.labels.len(),
    {
        self.labels.len()
    }

    /// The bytes of the label at `index`, counted from the left.
    pub fn label(&self, index: usize) -> (out: Option<Vec<u8>>)
        ensures
            index < self@.labels.len() ==> (out matches Some(label) && label@ == self@.labels[index as int]),
            index >= self@.labels.len() ==> out is None,
    {
        if index < self.labels.len() {
            Some(copy_bytes(&self.labels[index]))
        } else {
            None
        }
    }

    /// The same name in lower case.
    pub fn to_lowercase(&self) -> (out: DomainName)
        ensures
            out@ == (NameView { labels: lower_labels(self@.labels), fqdn: self@.fqdn }),
    {
        proof {
            use_type_invariant(self);
            lemma_lower_keeps_wf(self@.labels);
        }
        let mut labels: Vec<Vec<u8>> = Vec::new();
        let mut i: usize = 0;
        while i < self.labels.len()
            invariant
                i <= self.labels.len(),
                labels.len() == i,
                forall|k: int| 0 <= k < i ==> (#[trigger] labels[k])@ == lower_label(self.labels[k]@),
            decreases self.labels.len() - i,
        {
            labels.push(to_lower_label(&self.labels[i]));
            i = i + 1;
        }
        assert(labels_of(labels) =~= lower_labels(self@.labels));
        DomainName { labels, fqdn: self.fqdn }
    }

    /// The name as the key of a store: in lower case and fully qualified.
    pub fn canonical(&self) -> (out: DomainName)
        ensures
            out@ == (NameView { labels: lower_labels(self@.labels), fqdn: true }),
            is_lower(out@.labels),
    {
        proof {
            lemma_lower_idempotent(self@.labels);
        }
        let lower = self.to_lowercase();
        proof {
            use_type_invariant(&lower);
        }
        DomainName { labels: lower.labels, fqdn: true }
    }

    /// Whether two names have the same labels, byte for byte. The
    /// fully-qualified flag takes no part, as in `trust-dns`'s comparison of
    /// lower-case names.
    pub fn same_name(&self, other: &DomainName) -> (same: bool)
        ensures
            same == (self@.labels == other@.labels),
    {
        if self.labels.len() != other.labels.len() {
            assert(self@.labels.len() != other@.labels.len());
            return false;
        }
        let mut i: usize = 0;
        while i < self.labels.len()
            invariant
                i <= self.labels.len(),
                self.labels.len() == other.labels.len(),
                forall|k: int| 0 <= k < i ==> self.labels[k]@ == other.labels[k]@,
            decreases self.labels.len() - i,
        {
            if !same_bytes(&self.labels[i], &other.labels[i]) {
                assert(self@.labels[i as int] != other@.labels[i as int]);
                return false;
            }
            i = i + 1;
        }
        assert(self@.labels =~= other@.labels);
        true
    }

    /// Whether `self` is the zone of `name`: `name` itself or one of its
    /// ancestors. The labels are compared byte for byte.
    pub fn zone_of(&self, name: &DomainName) -> (out: bool)
        ensures
            out == is_zone_of(self@.labels, name@.labels),
    {
        let zone_len = self.labels.len();
        let name_len = name.labels.len();
        if zone_len > name_len {
            return false;
        }
        let skip = name_len - zone_len;
        let mut i: usize = 0;
        while i < zone_len
            invariant
                i <= zone_len,
                zone_len == self.labels.len(),
                name_len == name.labels.len(),
                skip == name_len - zone_len,
                forall|k: int| 0 <= k < i ==> self.labels[k]@ == name.labels[skip + k]@,
            decreases zone_len - i,
        {
            if !same_bytes(&self.labels[i], &name.labels[skip + i]) {
                assert(self@.labels[i as int] != name@.labels[name@.labels.len() - self@.labels.len()
                    + i]);
                return false;
            }
            i = i + 1;
        }
        true
    }
}

/// The first `n` labels of a name as they go on the wire: each label behind
/// the byte that holds its length.
pub open spec fn wire_labels(labels: Seq<Seq<u8>>, n: int) -> Seq<u8>
    decreases n,
{
    if n <= 0 {
        Seq::empty()
    } else {
        wire_labels(labels, n - 1) + seq![labels[n - 1].len() as u8] + labels[n - 1]
    }
}

/// A name as it goes on the wire, uncompressed: its labels, each behind its
/// length, and the byte 0 that ends every name.
pub open spec fn wire_name(labels: Seq<Seq<u8>>) -> Seq<u8> {
    wire_labels(labels, labels.len() as int) + seq![0u8]
}

impl DomainName {
    /// The labels of the name, in their order.
    pub fn labels(&self) -> (out: &Vec<Vec<u8>>)
        ensures
            labels_of(*out) == self@.labels,
            labels_wf(labels_of(*out)),
    {
        proof {
            use_type_invariant(self);
        }
        &self.labels
    }
}

impl Clone for DomainName {
    fn clone(&self) -> (out: DomainName)
        ensures
            out@ == self@,
    {
        proof {
            use_type_invariant(self);
        }
        DomainName { labels: copy_labels(&self.labels), fqdn: self.fqdn }
    }
}

} // verus!
