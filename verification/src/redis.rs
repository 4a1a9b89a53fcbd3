//! The layout of a clustered key/value store that holds the zones and
//! records, and the reading of what it replies.
//!
//! * `zone:<zone>` holds an empty string; its presence marks the zone.
//! * `resource:<zone>:<name>` holds a hash. Each field is the name of a
//!   record type, its value the encoded list of the records of that type.
//!
//! Talking to the store is no part of this module: it makes the keys to ask
//! for and reads the replies.

use crate::cache::all_lower;
use crate::cache::distinct_names;
use crate::cache::holds;
use crate::cache::name_in;
use crate::cache::names_view;
use crate::name::is_lower;
use crate::name::lower_labels;
use crate::name::spec_name_text;
use crate::name::spec_parse_name;
use crate::name::DomainName;
use crate::name::NameView;
use crate::record::records_view;
use crate::record::spec_type_text;
use crate::record::type_code;
use crate::record::RecordType;
use crate::record::RecordView;
use crate::record::StorageRecord;
use crate::storage::StorageError;
use vstd::prelude::*;
use vstd::string::StrSliceExecFns;
use vstd::string::StringExecFns;
use vstd::utf8::decode_utf8;
use vstd::utf8::valid_utf8;

verus! {

/// The characters that every zone key starts with.
pub open spec fn zone_prefix() -> Seq<char> {
    seq!['z', 'o', 'n', 'e', ':']
}

/// The characters that every resource key starts with.
pub open spec fn resource_prefix() -> Seq<char> {
    seq!['r', 'e', 's', 'o', 'u', 'r', 'c', 'e', ':']
}

/// The key that marks a zone.
pub open spec fn spec_zone_key(zone: NameView) -> Seq<char> {
    zone_prefix() + spec_name_text(zone.labels, zone.fqdn)
}

/// The key of the hash that holds the records at `name` in `zone`.
pub open spec fn spec_resource_key(zone: NameView, name: NameView) -> Seq<char> {
    resource_prefix() + spec_name_text(zone.labels, zone.fqdn) + seq![':'] + spec_name_text(
        name.labels,
        name.fqdn,
    )
}

/// The pattern that matches the resource keys of a zone.
pub open spec fn spec_resource_pattern(zone: NameView) -> Seq<char> {
    resource_prefix() + spec_name_text(zone.labels, zone.fqdn) + seq![':', '*']
}

/// Whether `text` starts with `prefix`.
pub open spec fn starts_with(text: Seq<char>, prefix: Seq<char>) -> bool {
    prefix.len() <= text.len() && text.subrange(0, prefix.len() as int) == prefix
}

/// What follows `prefix` in a `text` that starts with it.
pub open spec fn without_prefix(text: Seq<char>, prefix: Seq<char>) -> Option<Seq<char>> {
    if starts_with(text, prefix) {
        Some(text.skip(prefix.len() as int))
    } else {
        None
    }
}

/// The index of the first `sep` in `text` at or after `from`, or the length
/// of `text` where there is none.
pub open spec fn find_sep(text: Seq<char>, sep: char, from: int) -> int
    decreases text.len() - from,
{
    if from < 0 || from >= text.len() {
        text.len() as int
    } else if text[from] == sep {
        from
    } else {
        find_sep(text, sep, from + 1)
    }
}

/// The field number `n`, counted from 0, of the fields that `sep` parts
/// `text` into from `from` on.
pub open spec fn field_from(text: Seq<char>, sep: char, n: nat, from: int) -> Option<Seq<char>>
    decreases n,
{
    let end = find_sep(text, sep, from);
    if n == 0 {
        Some(text.subrange(from, end))
    } else if end >= text.len() {
        None
    } else {
        field_from(text, sep, (n - 1) as nat, end + 1)
    }
}

/// The field number `n`, counted from 0, of the fields that `sep` parts
/// `text` into; `None` where there are not so many.
pub open spec fn nth_field(text: Seq<char>, sep: char, n: nat) -> Option<Seq<char>> {
    field_from(text, sep, n, 0)
}

/// The name that a text spells, in lower case, if it spells one.
pub open spec fn spec_name_of_text(text: Seq<char>) -> Option<NameView> {
    match spec_parse_name(text) {
        Some((labels, fqdn)) => Some(NameView { labels: lower_labels(labels), fqdn }),
        None => None,
    }
}

/// The name that a text spells is in lower case.
pub proof fn lemma_name_of_text(text: Seq<char>)
    ensures
        spec_name_of_text(text) matches Some(name) ==> is_lower(name.labels),
{
    match spec_parse_name(text) {
        Some((labels, _)) => {
            crate::name::lemma_lower_idempotent(labels);
        },
        None => {},
    }
}

/// The zone that a zone key marks: what follows `zone:` in the key, read as
/// a name. A key that does not start with `zone:` marks no zone.
pub open spec fn spec_zone_of_key(key: Seq<char>) -> Option<NameView> {
    match without_prefix(key, zone_prefix()) {
        Some(text) => spec_name_of_text(text),
        None => None,
    }
}

/// The name that a resource key is for: the third of the fields that the
/// colons part the key into, read as a name.
pub open spec fn spec_domain_of_key(key: Seq<char>) -> Option<NameView> {
    match nth_field(key, ':', 2) {
        Some(field) => spec_name_of_text(field),
        None => None,
    }
}

/// The characters of a key that may be no text.
pub open spec fn key_view(key: Option<String>) -> Option<Seq<char>> {
    match key {
        Some(text) => Some(text@),
        None => None,
    }
}

/// The characters of the keys held in a vector, in their order.
pub open spec fn keys_view(keys: Vec<Option<String>>) -> Seq<Option<Seq<char>>> {
    Seq::new(keys.len() as nat, |i: int| key_view(keys[i]))
}

/// The zone that a scanned key marks, if it is text and marks one.
pub open spec fn zone_of_scanned(key: Option<Seq<char>>) -> Option<NameView> {
    match key {
        Some(text) => spec_zone_of_key(text),
        None => None,
    }
}

/// Whether a scanned key marks a zone with the given labels.
pub open spec fn marks(key: Option<Seq<char>>, labels: Seq<Seq<u8>>) -> bool {
    zone_of_scanned(key) matches Some(zone) && zone.labels == labels
}

/// The zones that a list of scanned keys marks, each once, in the order in
/// which the keys first mark them. A key that is no text or marks no name
/// is passed over, and so is one that marks a zone again.
pub open spec fn spec_zones_of_keys(keys: Seq<Option<Seq<char>>>) -> Seq<NameView>
    decreases keys.len(),
{
    if keys.len() == 0 {
        Seq::empty()
    } else {
        let rest = spec_zones_of_keys(keys.drop_last());
        match zone_of_scanned(keys.last()) {
            Some(zone) => if name_in(rest, zone.labels) {
                rest
            } else {
                rest.push(zone)
            },
            None => rest,
        }
    }
}

/// The zones that scanned keys mark are listed each once, and a zone is
/// listed exactly where one of the keys marks it.
pub proof fn lemma_zones_of_keys(keys: Seq<Option<Seq<char>>>)
    ensures
        distinct_names(spec_zones_of_keys(keys)),
        all_lower(spec_zones_of_keys(keys)),
        forall|labels: Seq<Seq<u8>>|
            name_in(spec_zones_of_keys(keys), labels) <==> exists|i: int|
                0 <= i < keys.len() && marks(#[trigger] keys[i], labels),
    decreases keys.len(),
{
    let zones = spec_zones_of_keys(keys);
    if keys.len() > 0 {
        let front = keys.drop_last();
        let rest = spec_zones_of_keys(front);
        lemma_zones_of_keys(front);
        if keys.last() is Some && without_prefix(keys.last()->Some_0, zone_prefix()) is Some {
            lemma_name_of_text(without_prefix(keys.last()->Some_0, zone_prefix())->Some_0);
        }
        assert forall|labels: Seq<Seq<u8>>| name_in(zones, labels) <==> exists|i: int|
            0 <= i < keys.len() && marks(#[trigger] keys[i], labels) by {
            if name_in(zones, labels) {
                let k = choose|k: int| 0 <= k < zones.len() && (#[trigger] zones[k]).labels == labels;
                if k < rest.len() {
                    assert(rest[k].labels == labels);
                    assert(name_in(rest, labels));
                    let i = choose|i: int| 0 <= i < front.len() && marks(#[trigger] front[i], labels);
                    assert(keys[i] == front[i]);
                } else {
                    assert(marks(keys[keys.len() - 1], labels));
                }
            }
            if exists|i: int| 0 <= i < keys.len() && marks(#[trigger] keys[i], labels) {
                let i = choose|i: int| 0 <= i < keys.len() && marks(#[trigger] keys[i], labels);
                if i < front.len() {
                    assert(front[i] == keys[i]);
                    assert(name_in(rest, labels));
                    let k = choose|k: int| 0 <= k < rest.len() && (#[trigger] rest[k]).labels == labels;
                    assert(zones[k] == rest[k]);
                } else if name_in(rest, labels) {
                    let k = choose|k: int| 0 <= k < rest.len() && (#[trigger] rest[k]).labels == labels;
                    assert(zones[k] == rest[k]);
                } else {
                    assert(zones[rest.len() as int].labels == labels);
                }
            }
        }
        assert forall|i: int, j: int| 0 <= i < j < zones.len() implies (#[trigger] zones[i]).labels != (
        #[trigger] zones[j]).labels by {
            if j < rest.len() {
                assert(rest[i].labels != rest[j].labels);
            } else {
                assert(zones[i] == rest[i]);
            }
        }
    }
}

/// Whether a name is read back from its text.
pub open spec fn reads_back(zone: NameView) -> bool {
    spec_name_of_text(spec_name_text(zone.labels, zone.fqdn)) == Some(zone)
}

/// The key that marks a zone is read back as that zone, where the zone's
/// name is read back from its text.
pub proof fn lemma_zone_key_read_back(zone: NameView)
    requires
        reads_back(zone),
    ensures
        spec_zone_of_key(spec_zone_key(zone)) == Some(zone),
{
    let text = spec_name_text(zone.labels, zone.fqdn);
    let key = spec_zone_key(zone);
    assert(key.subrange(0, zone_prefix().len() as int) =~= zone_prefix());
    assert(key.skip(zone_prefix().len() as int) =~= text);
}

/// A zone whose key is among the scanned keys is among the zones that the
/// keys mark, where its name is read back from its text: a zone that was
/// written is a zone that is listed.
pub proof fn lemma_zone_written_is_listed(keys: Seq<Option<Seq<char>>>, i: int, zone: NameView)
    requires
        0 <= i < keys.len(),
        keys[i] == Some(spec_zone_key(zone)),
        reads_back(zone),
    ensures
        name_in(spec_zones_of_keys(keys), zone.labels),
{
    lemma_zone_key_read_back(zone);
    lemma_zones_of_keys(keys);
    assert(marks(keys[i], zone.labels));
}

/// The name that a scanned resource key is for, if it is text and holds
/// one.
pub open spec fn domain_of_scanned(key: Option<Seq<char>>) -> Option<NameView> {
    match key {
        Some(text) => spec_domain_of_key(text),
        None => None,
    }
}

/// Whether a scanned resource key is for a name with the given labels.
pub open spec fn is_for(key: Option<Seq<char>>, labels: Seq<Seq<u8>>) -> bool {
    domain_of_scanned(key) matches Some(name) && name.labels == labels
}

/// The names that a list of scanned resource keys is for, each once, in the
/// order in which the keys first hold them. A key that is no text or holds
/// no name is passed over, and so is one that holds a name again.
pub open spec fn spec_domains_of_keys(keys: Seq<Option<Seq<char>>>) -> Seq<NameView>
    decreases keys.len(),
{
    if keys.len() == 0 {
        Seq::empty()
    } else {
        let rest = spec_domains_of_keys(keys.drop_last());
        match domain_of_scanned(keys.last()) {
            Some(name) => if name_in(rest, name.labels) {
                rest
            } else {
                rest.push(name)
            },
            None => rest,
        }
    }
}

/// The names that scanned resource keys are for are listed each once, and
/// a name is listed exactly where one of the keys is for it.
pub proof fn lemma_domains_of_keys(keys: Seq<Option<Seq<char>>>)
    ensures
        distinct_names(spec_domains_of_keys(keys)),
        all_lower(spec_domains_of_keys(keys)),
        forall|labels: Seq<Seq<u8>>|
            name_in(spec_domains_of_keys(keys), labels) <==> exists|i: int|
                0 <= i < keys.len() && is_for(#[trigger] keys[i], labels),
    decreases keys.len(),
{
    let zones = spec_domains_of_keys(keys);
    if keys.len() > 0 {
        let front = keys.drop_last();
        let rest = spec_domains_of_keys(front);
        lemma_domains_of_keys(front);
        if keys.last() is Some && nth_field(keys.last()->Some_0, ':', 2) is Some {
            lemma_name_of_text(nth_field(keys.last()->Some_0, ':', 2)->Some_0);
        }
        assert forall|labels: Seq<Seq<u8>>| name_in(zones, labels) <==> exists|i: int|
            0 <= i < keys.len() && is_for(#[trigger] keys[i], labels) by {
            if name_in(zones, labels) {
                let k = choose|k: int| 0 <= k < zones.len() && (#[trigger] zones[k]).labels == labels;
                if k < rest.len() {
                    assert(rest[k].labels == labels);
                    assert(name_in(rest, labels));
                    let i = choose|i: int| 0 <= i < front.len() && is_for(#[trigger] front[i], labels);
                    assert(keys[i] == front[i]);
                } else {
                    assert(is_for(keys[keys.len() - 1], labels));
                }
            }
            if exists|i: int| 0 <= i < keys.len() && is_for(#[trigger] keys[i], labels) {
                let i = choose|i: int| 0 <= i < keys.len() && is_for(#[trigger] keys[i], labels);
                if i < front.len() {
                    assert(front[i] == keys[i]);
                    assert(name_in(rest, labels));
                    let k = choose|k: int| 0 <= k < rest.len() && (#[trigger] rest[k]).labels == labels;
                    assert(zones[k] == rest[k]);
                } else if name_in(rest, labels) {
                    let k = choose|k: int| 0 <= k < rest.len() && (#[trigger] rest[k]).labels == labels;
                    assert(zones[k] == rest[k]);
                } else {
                    assert(zones[rest.len() as int].labels == labels);
                }
            }
        }
        assert forall|i: int, j: int| 0 <= i < j < zones.len() implies (#[trigger] zones[i]).labels != (
        #[trigger] zones[j]).labels by {
            if j < rest.len() {
                assert(rest[i].labels != rest[j].labels);
            } else {
                assert(zones[i] == rest[i]);
            }
        }
    }
}

/// What the reply to "all fields of the hash" says about one record type.
pub enum Selected {
    /// The hash does not exist: there is no such name.
    NoSuchName,
    /// The hash exists and has no field for the type.
    NoData,
    /// The encoded records of the type.
    Encoded(Vec<u8>),
}

/// The mathematical value of a [`Selected`].
pub enum SelectedView {
    NoSuchName,
    NoData,
    Encoded(Seq<u8>),
}

impl View for Selected {
    type V = SelectedView;

    open spec fn view(&self) -> SelectedView {
        match *self {
            Selected::NoSuchName => SelectedView::NoSuchName,
            Selected::NoData => SelectedView::NoData,
            Selected::Encoded(bytes) => SelectedView::Encoded(bytes@),
        }
    }
}

/// The reply as a sequence of byte sequences.
pub open spec fn reply_view(reply: Vec<Vec<u8>>) -> Seq<Seq<u8>> {
    Seq::new(reply.len() as nat, |i: int| reply[i]@)
}

/// What the pairs of a reply say about the field named `field`, from the
/// pair number `from` on. The pairs are read in their order: a field name
/// that is no UTF-8 ends the reading with an error, the field asked for
/// ends it with its value.
pub open spec fn select_from(reply: Seq<Seq<u8>>, field: Seq<char>, from: int) -> Result<
    SelectedView,
    StorageError,
>
    decreases reply.len() - 2 * from,
{
    if from < 0 || 2 * from + 1 >= reply.len() {
        Ok(SelectedView::NoData)
    } else if !valid_utf8(reply[2 * from]) {
        Err(StorageError::Encoding)
    } else if decode_utf8(reply[2 * from]) == field {
        Ok(SelectedView::Encoded(reply[2 * from + 1]))
    } else {
        select_from(reply, field, from + 1)
    }
}

/// What a reply to "all fields of the hash" says about the field named
/// `field`. The reply lists each field name followed by its value. An empty
/// reply says that the hash does not exist; so does a reply of odd length,
/// which is none that the store should give.
pub open spec fn spec_select(reply: Seq<Seq<u8>>, field: Seq<char>) -> Result<SelectedView, StorageError> {
    if reply.len() == 0 || reply.len() % 2 != 0 {
        Ok(SelectedView::NoSuchName)
    } else {
        select_from(reply, field, 0)
    }
}

/// What was written under a field of a hash is what is read for the field:
/// where the reply holds the field, behind fields of other names that are
/// text, the reading gives the value that stands with it. With
/// `append_record`, which puts a record added behind those that the field
/// held, a record that was added is among those that are looked up.
pub proof fn lemma_field_written_is_read(reply: Seq<Seq<u8>>, field: Seq<char>, k: int)
    requires
        reply.len() % 2 == 0,
        0 <= k,
        2 * k + 1 < reply.len(),
        valid_utf8(reply[2 * k]),
        decode_utf8(reply[2 * k]) == field,
        forall|j: int| 0 <= j < k ==> valid_utf8(#[trigger] reply[2 * j]) && decode_utf8(reply[2 * j]) != field,
    ensures
        spec_select(reply, field) == Ok::<SelectedView, StorageError>(SelectedView::Encoded(reply[2 * k + 1])),
{
    lemma_select_from(reply, field, k, 0);
}

proof fn lemma_select_from(reply: Seq<Seq<u8>>, field: Seq<char>, k: int, from: int)
    requires
        0 <= from <= k,
        2 * k + 1 < reply.len(),
        valid_utf8(reply[2 * k]),
        decode_utf8(reply[2 * k]) == field,
        forall|j: int| 0 <= j < k ==> valid_utf8(#[trigger] reply[2 * j]) && decode_utf8(reply[2 * j]) != field,
    ensures
        select_from(reply, field, from) == Ok::<SelectedView, StorageError>(SelectedView::Encoded(reply[2 * k + 1])),
    decreases k - from,
{
    if from < k {
        assert(valid_utf8(reply[2 * from]) && decode_utf8(reply[2 * from]) != field);
        lemma_select_from(reply, field, k, from + 1);
    }
}

/// The record lists of `sets` one after the other; a list that could not
/// be read is passed over.
pub open spec fn spec_flatten(sets: Seq<Option<Seq<RecordView>>>) -> Seq<RecordView>
    decreases sets.len(),
{
    if sets.len() == 0 {
        Seq::empty()
    } else {
        match sets.last() {
            Some(records) => spec_flatten(sets.drop_last()) + records,
            None => spec_flatten(sets.drop_last()),
        }
    }
}

/// The record lists held in a vector, as sequences.
pub open spec fn sets_view(sets: Vec<Option<Vec<StorageRecord>>>) -> Seq<Option<Seq<RecordView>>> {
    Seq::new(sets.len() as nat, |i: int| crate::storage::found_view(sets[i]))
}

/// Reads bytes as UTF-8 text with `String::from_utf8`, which accepts
/// exactly the byte sequences that are valid UTF-8 and then holds the
/// characters they encode.
#[verifier::external_body]
fn utf8_text(bytes: &Vec<u8>) -> (out: Option<String>)
    ensures
        out is Some <==> valid_utf8(bytes@),
        out matches Some(text) ==> text@ == decode_utf8(bytes@),
{
    String::from_utf8(bytes.clone()).ok()
}

fn copy_bytes(src: &Vec<u8>) -> (out: Vec<u8>)
    ensures
        out@ == src@,
{
    let mut out: Vec<u8> = Vec::new();
    let mut i: usize = 0;
    while i < src.len()
        invariant
            i <= src.len(),
            out@ == src@.subrange(0, i as int),
        decreases src.len() - i,
    {
        out.push(src[i]);
        i = i + 1;
        assert(out@ =~= src@.subrange(0, i as int));
    }
    assert(src@.subrange(0, src.len() as int) =~= src@);
    out
}

/// The key that marks `zone`.
pub fn zone_key(zone: &DomainName) -> (out: String)
    ensures
        out@ == spec_zone_key(zone@),
{
    proof {
        reveal_strlit("zone:");
    }
    let mut out = String::from_str("zone:");
    let text = zone.to_text();
    out.append(text.as_str());
    assert(out@ =~= spec_zone_key(zone@));
    out
}

/// The pattern that matches every zone key.
pub fn zone_pattern() -> (out: &'static str)
    ensures
        out@ == zone_prefix() + seq!['*'],
{
    proof {
        reveal_strlit("zone:*");
    }
    let out = "zone:*";
    assert(out@ =~= zone_prefix() + seq!['*']);
    out
}

/// The key of the hash that holds the records at `name` in `zone`.
pub fn resource_key(zone: &DomainName, name: &DomainName) -> (out: String)
    ensures
        out@ == spec_resource_key(zone@, name@),
{
    proof {
        reveal_strlit("resource:");
        reveal_strlit(":");
    }
    let mut out = String::from_str("resource:");
    let zone_text = zone.to_text();
    let name_text = name.to_text();
    out.append(zone_text.as_str());
    out.append(":");
    out.append(name_text.as_str());
    assert(out@ =~= spec_resource_key(zone@, name@));
    out
}

/// The pattern that matches the resource keys of `zone`.
pub fn resource_pattern(zone: &DomainName) -> (out: String)
    ensures
        out@ == spec_resource_pattern(zone@),
{
    proof {
        reveal_strlit("resource:");
        reveal_strlit(":*");
    }
    let mut out = String::from_str("resource:");
    let zone_text = zone.to_text();
    out.append(zone_text.as_str());
    out.append(":*");
    assert(out@ =~= spec_resource_pattern(zone@));
    out
}

fn starts_with_at(text: &str, text_len: usize, at: usize, prefix: &str, prefix_len: usize) -> (out: bool)
    requires
        text_len == text@.len(),
        prefix_len == prefix@.len(),
        at <= text_len,
    ensures
        out == starts_with(text@.skip(at as int), prefix@),
{
    if prefix_len > text_len - at {
        return false;
    }
    let ghost rest = text@.skip(at as int);
    let mut i: usize = 0;
    while i < prefix_len
        invariant
            i <= prefix_len,
            text_len == text@.len(),
            prefix_len == prefix@.len(),
            prefix_len <= text_len - at,
            rest == text@.skip(at as int),
            forall|k: int| 0 <= k < i ==> rest[k] == prefix@[k],
        decreases prefix_len - i,
    {
        if text.get_char(at + i) != prefix.get_char(i) {
            assert(rest.subrange(0, prefix@.len() as int)[i as int] != prefix@[i as int]);
            return false;
        }
        i = i + 1;
    }
    assert(rest.subrange(0, prefix@.len() as int) =~= prefix@);
    true
}

/// What follows `prefix` in a `text` that starts with it; `None` where it
/// does not start with it.
pub fn strip_prefix<'a>(text: &'a str, prefix: &str) -> (out: Option<&'a str>)
    ensures
        match without_prefix(text@, prefix@) {
            Some(rest) => out matches Some(found) && found@ == rest,
            None => out is None,
        },
{
    let text_len = text.unicode_len();
    let prefix_len = prefix.unicode_len();
    assert(text@.skip(0) =~= text@);
    if starts_with_at(text, text_len, 0, prefix, prefix_len) {
        assert(text@.skip(prefix_len as int) =~= text@.subrange(prefix_len as int, text_len as int));
        Some(text.substring_char(prefix_len, text_len))
    } else {
        None
    }
}

/// The field number `n`, counted from 0, of the fields that `sep` parts
/// `text` into; `None` where there are not so many.
pub fn split_field<'a>(text: &'a str, sep: char, n: usize) -> (out: Option<&'a str>)
    ensures
        match nth_field(text@, sep, n as nat) {
            Some(field) => out matches Some(found) && found@ == field,
            None => out is None,
        },
{
    let len = text.unicode_len();
    let mut left: usize = n;
    let mut start: usize = 0;
    let mut i: usize = 0;
    while i < len
        invariant
            start <= i <= len,
            len == text@.len(),
            left <= n,
            nth_field(text@, sep, n as nat) == field_from(text@, sep, left as nat, start as int),
            find_sep(text@, sep, start as int) == find_sep(text@, sep, i as int),
        decreases len - i,
    {
        if text.get_char(i) == sep {
            if left == 0 {
                return Some(text.substring_char(start, i));
            }
            left = left - 1;
            start = i + 1;
        }
        i = i + 1;
    }
    if left == 0 {
        Some(text.substring_char(start, len))
    } else {
        None
    }
}

/// The name that a text spells, in lower case, if it spells one.
pub fn name_of_text(text: &str) -> (out: Option<DomainName>)
    ensures
        match spec_name_of_text(text@) {
            Some(name) => out matches Some(found) && found@ == name,
            None => out is None,
        },
{
    match DomainName::from_str(text) {
        Ok(name) => Some(name),
        Err(_) => None,
    }
}

/// The zone that a zone key marks, if it marks one.
pub fn zone_of_key(key: &str) -> (out: Option<DomainName>)
    ensures
        match spec_zone_of_key(key@) {
            Some(zone) => out matches Some(found) && found@ == zone,
            None => out is None,
        },
{
    proof {
        reveal_strlit("zone:");
    }
    assert("zone:"@ =~= zone_prefix());
    match strip_prefix(key, "zone:") {
        Some(text) => name_of_text(text),
        None => None,
    }
}

/// The name that a resource key is for, if it holds one.
pub fn domain_of_key(key: &str) -> (out: Option<DomainName>)
    ensures
        match spec_domain_of_key(key@) {
            Some(name) => out matches Some(found) && found@ == name,
            None => out is None,
        },
{
    match split_field(key, ':', 2) {
        Some(field) => name_of_text(field),
        None => None,
    }
}

/// The zones that the scanned keys mark, each once, in the order in which
/// the keys first mark them. A key that is no text, or marks no name, is
/// passed over.
pub fn zones_of_keys(keys: &Vec<Option<String>>) -> (out: Vec<DomainName>)
    ensures
        names_view(out) == spec_zones_of_keys(keys_view(*keys)),
        distinct_names(names_view(out)),
        all_lower(names_view(out)),
        forall|labels: Seq<Seq<u8>>|
            name_in(names_view(out), labels) <==> exists|i: int|
                0 <= i < keys.len() && marks(#[trigger] keys_view(*keys)[i], labels),
{
    let ghost all = keys_view(*keys);
    let mut out: Vec<DomainName> = Vec::new();
    let mut i: usize = 0;
    assert(names_view(out) =~= Seq::<NameView>::empty());
    assert(all.take(0) =~= Seq::<Option<Seq<char>>>::empty());
    while i < keys.len()
        invariant
            i <= keys.len(),
            all == keys_view(*keys),
            names_view(out) == spec_zones_of_keys(all.take(i as int)),
        decreases keys.len() - i,
    {
        let ghost before = names_view(out);
        assert(all.take(i as int + 1).drop_last() =~= all.take(i as int));
        assert(all.take(i as int + 1).last() == key_view(keys[i as int]));
        match &keys[i] {
            Some(key) => {
                match zone_of_key(key.as_str()) {
                    Some(zone) => {
                        if !holds(&out, &zone) {
                            let ghost zone_view = zone@;
                            out.push(zone);
                            assert(names_view(out) =~= before.push(zone_view));
                        }
                    },
                    None => {},
                }
            },
            None => {},
        }
        i = i + 1;
    }
    assert(all.take(keys.len() as int) =~= all);
    proof {
        lemma_zones_of_keys(all);
    }
    out
}

/// The names that the scanned resource keys are for, each once, in the
/// order in which the keys first hold them. A key that is no text, or holds
/// no name, is passed over.
pub fn domains_of_keys(keys: &Vec<Option<String>>) -> (out: Vec<DomainName>)
    ensures
        names_view(out) == spec_domains_of_keys(keys_view(*keys)),
        distinct_names(names_view(out)),
        all_lower(names_view(out)),
        forall|labels: Seq<Seq<u8>>|
            name_in(names_view(out), labels) <==> exists|i: int|
                0 <= i < keys.len() && is_for(#[trigger] keys_view(*keys)[i], labels),
{
    let ghost all = keys_view(*keys);
    let mut out: Vec<DomainName> = Vec::new();
    let mut i: usize = 0;
    assert(names_view(out) =~= Seq::<NameView>::empty());
    assert(all.take(0) =~= Seq::<Option<Seq<char>>>::empty());
    while i < keys.len()
        invariant
            i <= keys.len(),
            all == keys_view(*keys),
            names_view(out) == spec_domains_of_keys(all.take(i as int)),
        decreases keys.len() - i,
    {
        let ghost before = names_view(out);
        assert(all.take(i as int + 1).drop_last() =~= all.take(i as int));
        assert(all.take(i as int + 1).last() == key_view(keys[i as int]));
        match &keys[i] {
            Some(key) => {
                match domain_of_key(key.as_str()) {
                    Some(name) => {
                        if !holds(&out, &name) {
                            let ghost name_view = name@;
                            out.push(name);
                            assert(names_view(out) =~= before.push(name_view));
                        }
                    },
                    None => {},
                }
            },
            None => {},
        }
        i = i + 1;
    }
    assert(all.take(keys.len() as int) =~= all);
    proof {
        lemma_domains_of_keys(all);
    }
    out
}

/// Reads the reply to "all fields of the hash at `resource_key`" for the
/// records of type `rtype`: whether the name exists, and the encoded
/// records of the type if it has any.
pub fn select_record_set(reply: &Vec<Vec<u8>>, rtype: RecordType) -> (out: Result<Selected, StorageError>)
    ensures
        match spec_select(reply_view(*reply), spec_type_text(type_code(rtype))) {
            Ok(selected) => out matches Ok(found) && found@ == selected,
            Err(e) => out == Err::<Selected, StorageError>(e),
        },
{
    if reply.len() == 0 || reply.len() % 2 != 0 {
        return Ok(Selected::NoSuchName);
    }
    let field = rtype.text();
    let ghost all = reply_view(*reply);
    let mut pair: usize = 0;
    while 2 * pair + 1 < reply.len()
        invariant
            all == reply_view(*reply),
            2 * pair <= reply.len(),
            reply.len() % 2 == 0,
            reply.len() != 0,
            field@ == spec_type_text(type_code(rtype)),
            select_from(all, field@, 0) == select_from(all, field@, pair as int),
        decreases reply.len() - 2 * pair,
    {
        assert(all[2 * pair as int] == reply[2 * pair as int]@);
        assert(all[2 * pair as int + 1] == reply[2 * pair as int + 1]@);
        let ghost here = select_from(all, field@, pair as int);
        match utf8_text(&reply[2 * pair]) {
            None => {
                assert(here == Err::<SelectedView, StorageError>(StorageError::Encoding));
                return Err(StorageError::Encoding);
            },
            Some(name) => {
                if name == field {
                    assert(here == Ok::<SelectedView, StorageError>(
                        SelectedView::Encoded(all[2 * pair as int + 1]),
                    ));
                    return Ok(Selected::Encoded(copy_bytes(&reply[2 * pair + 1])));
                }
                assert(here == select_from(all, field@, pair as int + 1));
            },
        }
        pair = pair + 1;
    }
    assert(select_from(all, field@, pair as int) == Ok::<SelectedView, StorageError>(SelectedView::NoData));
    Ok(Selected::NoData)
}

/// The list of records to store after `record` was added to what the store
/// held for its name and type: the list that was there, or an empty one,
/// with the record at its end.
pub fn append_record(existing: Option<Vec<StorageRecord>>, record: StorageRecord) -> (out: Vec<StorageRecord>)
    ensures
        records_view(out) == match existing {
            Some(records) => records_view(records).push(record@),
            None => seq![record@],
        },
{
    let mut out = match existing {
        Some(records) => records,
        None => {
            let fresh: Vec<StorageRecord> = Vec::new();
            assert(records_view(fresh).push(record@) =~= seq![record@]);
            fresh
        },
    };
    let ghost before = records_view(out);
    out.push(record);
    assert(records_view(out) =~= before.push(record@));
    out
}

/// All records of a hash, from the decoded values of its fields in the
/// order in which they are given. A value that could not be decoded is
/// `None` and is passed over.
pub fn collect_records(sets: Vec<Option<Vec<StorageRecord>>>) -> (out: Vec<StorageRecord>)
    ensures
        records_view(out) == spec_flatten(sets_view(sets)),
{
    let ghost all = sets_view(sets);
    let mut out: Vec<StorageRecord> = Vec::new();
    let mut i: usize = 0;
    assert(records_view(out) =~= Seq::<RecordView>::empty());
    assert(all.take(0) =~= Seq::<Option<Seq<RecordView>>>::empty());
    while i < sets.len()
        invariant
            i <= sets.len(),
            all == sets_view(sets),
            records_view(out) == spec_flatten(all.take(i as int)),
        decreases sets.len() - i,
    {
        assert(all.take(i as int + 1).drop_last() =~= all.take(i as int));
        assert(all.take(i as int + 1).last() == crate::storage::found_view(sets[i as int]));
        match &sets[i] {
            Some(records) => {
                let ghost start = records_view(out);
                let mut k: usize = 0;
                while k < records.len()
                    invariant
                        k <= records.len(),
                        records_view(out) == start + records_view(*records).take(k as int),
                    decreases records.len() - k,
                {
                    let ghost before = records_view(out);
                    out.push(records[k].clone());
                    assert(records_view(out) =~= before.push(records[k as int]@));
                    assert(records_view(*records).take(k as int + 1) =~= records_view(*records).take(
                        k as int,
                    ).push(records[k as int]@));
                    assert(start + records_view(*records).take(k as int + 1) =~= (start + records_view(
                        *records,
                    ).take(k as int)).push(records[k as int]@));
                    k = k + 1;
                }
                assert(records_view(*records).take(records.len() as int) =~= records_view(*records));
            },
            None => {},
        }
        i = i + 1;
    }
    assert(all.take(sets.len() as int) =~= all);
    out
}

} // verus!
