//! HTTP/3 frames (RFC 9114): types, codec and an incremental parser.

use vstd::prelude::*;
use vstd::std_specs::convert::FromSpecImpl;
use crate::error::{H3Error, H3Result, ParseError};
use crate::protocol::varint::{read_varint, write_varint, varint_size, spec_varint_decode, spec_varint_encode, spec_varint_size, lemma_varint_roundtrip, lemma_varint_decode_prefix, lemma_varint_decode_bound, VARINT_MAX};
use crate::text::{decimal, text_with_number};

verus! {

/// HTTP/3 frame types according to RFC 9114.
#[derive(Debug, Clone, Copy, PartialEq, Eq, Hash, Structural)]
pub enum FrameType {
    /// DATA frame (0x00) - carries request/response body
    Data,
    /// HEADERS frame (0x01) - carries request/response headers
    Headers,
    /// CANCEL_PUSH frame (0x03) - cancels server push
    CancelPush,
    /// SETTINGS frame (0x04) - carries connection settings
    Settings,
    /// PUSH_PROMISE frame (0x05) - server push promise
    PushPromise,
    /// GOAWAY frame (0x07) - graceful connection termination
    Goaway,
    /// MAX_PUSH_ID frame (0x0D) - maximum push stream ID
    MaxPushId,
}

/// The wire code of a frame type.
pub open spec fn spec_frame_type_code(t: FrameType) -> u64 {
    match t {
        FrameType::Data => 0x00,
        FrameType::Headers => 0x01,
        FrameType::CancelPush => 0x03,
        FrameType::Settings => 0x04,
        FrameType::PushPromise => 0x05,
        FrameType::Goaway => 0x07,
        FrameType::MaxPushId => 0x0D,
    }
}

/// The frame type with wire code `v`, if any.
pub open spec fn spec_frame_type_of(v: u64) -> Option<FrameType> {
    if v == 0x00 {
        Some(FrameType::Data)
    } else if v == 0x01 {
        Some(FrameType::Headers)
    } else if v == 0x03 {
        Some(FrameType::CancelPush)
    } else if v == 0x04 {
        Some(FrameType::Settings)
    } else if v == 0x05 {
        Some(FrameType::PushPromise)
    } else if v == 0x07 {
        Some(FrameType::Goaway)
    } else if v == 0x0D {
        Some(FrameType::MaxPushId)
    } else {
        None
    }
}

/// The text of the error for an unknown frame type code `v`.
pub open spec fn unknown_frame_type_text(v: u64) -> Seq<char> {
    "Unknown frame type: "@ + decimal(v as nat)
}

/// The text of the error for an unknown setting identifier `v`.
pub open spec fn unknown_setting_text(v: u64) -> Seq<char> {
    "Unknown setting ID: "@ + decimal(v as nat)
}

impl FrameType {
    /// Convert a wire code to a frame type.
    pub fn try_from(value: u64) -> (res: Result<FrameType, ParseError>)
        ensures
            match spec_frame_type_of(value) {
                Some(t) => res == Ok::<FrameType, ParseError>(t),
                None => res matches Err(ParseError::InvalidFormat(msg))
                    && msg@ == unknown_frame_type_text(value),
            },
    {
        if value == 0x00 {
            Ok(FrameType::Data)
        } else if value == 0x01 {
            Ok(FrameType::Headers)
        } else if value == 0x03 {
            Ok(FrameType::CancelPush)
        } else if value == 0x04 {
            Ok(FrameType::Settings)
        } else if value == 0x05 {
            Ok(FrameType::PushPromise)
        } else if value == 0x07 {
            Ok(FrameType::Goaway)
        } else if value == 0x0D {
            Ok(FrameType::MaxPushId)
        } else {
            Err(ParseError::InvalidFormat(text_with_number("Unknown frame type: ", value)))
        }
    }

    /// The wire code of this frame type.
    pub fn to_u64(self) -> (v: u64)
        ensures
            v == spec_frame_type_code(self),
    {
        match self {
            FrameType::Data => 0x00,
            FrameType::Headers => 0x01,
            FrameType::CancelPush => 0x03,
            FrameType::Settings => 0x04,
            FrameType::PushPromise => 0x05,
            FrameType::Goaway => 0x07,
            FrameType::MaxPushId => 0x0D,
        }
    }
}

impl From<FrameType> for u64 {
    fn from(frame_type: FrameType) -> (v: u64) {
        frame_type.to_u64()
    }
}

impl FromSpecImpl<FrameType> for u64 {
    open spec fn obeys_from_spec() -> bool {
        true
    }

    open spec fn from_spec(v: FrameType) -> u64 {
        spec_frame_type_code(v)
    }
}

/// Converting a frame type to its code and back gives the same frame type, and a code that
/// converts to a frame type is that type's code.
pub proof fn lemma_frame_type_code_roundtrip(t: FrameType, v: u64)
    ensures
        spec_frame_type_of(spec_frame_type_code(t)) == Some(t),
        spec_frame_type_of(v) matches Some(u) ==> spec_frame_type_code(u) == v,
{
}

/// HTTP/3 Settings identifiers according to RFC 9114.
#[derive(Debug, Clone, Copy, PartialEq, Eq, Hash, Structural)]
pub enum SettingId {
    /// QPACK maximum table capacity
    QpackMaxTableCapacity,
    /// Maximum field section size
    MaxFieldSectionSize,
    /// QPACK blocked streams
    QpackBlockedStreams,
}

/// The wire code of a setting identifier.
pub open spec fn spec_setting_code(s: SettingId) -> u64 {
    match s {
        SettingId::QpackMaxTableCapacity => 0x01,
        SettingId::MaxFieldSectionSize => 0x06,
        SettingId::QpackBlockedStreams => 0x07,
    }
}

/// The setting identifier with wire code `v`, if any.
pub open spec fn spec_setting_of(v: u64) -> Option<SettingId> {
    if v == 0x01 {
        Some(SettingId::QpackMaxTableCapacity)
    } else if v == 0x06 {
        Some(SettingId::MaxFieldSectionSize)
    } else if v == 0x07 {
        Some(SettingId::QpackBlockedStreams)
    } else {
        None
    }
}

impl SettingId {
    /// Convert a wire code to a setting identifier.
    pub fn try_from(value: u64) -> (res: Result<SettingId, ParseError>)
        ensures
            match spec_setting_of(value) {
                Some(s) => res == Ok::<SettingId, ParseError>(s),
                None => res matches Err(ParseError::InvalidFormat(msg))
                    && msg@ == unknown_setting_text(value),
            },
    {
        if value == 0x01 {
            Ok(SettingId::QpackMaxTableCapacity)
        } else if value == 0x06 {
            Ok(SettingId::MaxFieldSectionSize)
        } else if value == 0x07 {
            Ok(SettingId::QpackBlockedStreams)
        } else {
            Err(ParseError::InvalidFormat(text_with_number("Unknown setting ID: ", value)))
        }
    }

    /// The wire code of this setting identifier.
    pub fn to_u64(self) -> (v: u64)
        ensures
            v == spec_setting_code(self),
    {
        match self {
            SettingId::QpackMaxTableCapacity => 0x01,
            SettingId::MaxFieldSectionSize => 0x06,
            SettingId::QpackBlockedStreams => 0x07,
        }
    }
}

impl From<SettingId> for u64 {
    fn from(setting_id: SettingId) -> (v: u64) {
        setting_id.to_u64()
    }
}

impl FromSpecImpl<SettingId> for u64 {
    open spec fn obeys_from_spec() -> bool {
        true
    }

    open spec fn from_spec(v: SettingId) -> u64 {
        spec_setting_code(v)
    }
}

/// Converting a setting identifier to its code and back gives the same identifier.
pub proof fn lemma_setting_code_roundtrip(s: SettingId, v: u64)
    ensures
        spec_setting_of(spec_setting_code(s)) == Some(s),
        spec_setting_of(v) matches Some(u) ==> spec_setting_code(u) == v,
{
}

/// Priority information for HTTP/3 frames.
#[derive(Debug, Clone, Copy, PartialEq, Eq, Structural)]
pub struct Priority {
    /// Priority weight (1-256)
    pub weight: u8,
    /// Stream dependency
    pub depends_on: Option<u64>,
    /// Exclusive dependency flag
    pub exclusive: bool,
}

impl Default for Priority {
    fn default() -> (p: Self)
        ensures
            p == (Priority { weight: 16, depends_on: None, exclusive: false }),
    {
        Priority { weight: 16, depends_on: None, exclusive: false }
    }
}

} // verus!

verus! {

/// Whether no identifier occurs twice among the entries.
pub open spec fn settings_unique(s: Seq<(SettingId, u64)>) -> bool {
    forall|i: int, j: int| 0 <= i < j < s.len() ==> s[i].0 != s[j].0
}

/// The entries after setting `id` to `v`: the entry for `id` keeps its place and takes the new
/// value, or a new entry goes at the end.
pub open spec fn settings_upsert(s: Seq<(SettingId, u64)>, id: SettingId, v: u64) -> Seq<(SettingId, u64)>
    decreases s.len(),
{
    if s.len() == 0 {
        seq![(id, v)]
    } else if s[0].0 == id {
        s.update(0, (id, v))
    } else {
        seq![s[0]] + settings_upsert(s.drop_first(), id, v)
    }
}

/// The value stored for `id`, if any.
pub open spec fn settings_lookup(s: Seq<(SettingId, u64)>, id: SettingId) -> Option<u64>
    decreases s.len(),
{
    if s.len() == 0 {
        None
    } else if s[0].0 == id {
        Some(s[0].1)
    } else {
        settings_lookup(s.drop_first(), id)
    }
}

proof fn lemma_upsert_at(s: Seq<(SettingId, u64)>, id: SettingId, v: u64, i: int)
    requires
        0 <= i <= s.len(),
        forall|j: int| 0 <= j < i ==> s[j].0 != id,
        i < s.len() ==> s[i].0 == id,
    ensures
        i < s.len() ==> settings_upsert(s, id, v) == s.update(i, (id, v)),
        i == s.len() ==> settings_upsert(s, id, v) == s.push((id, v)),
    decreases i,
{
    if i > 0 {
        let t = s.drop_first();
        lemma_upsert_at(t, id, v, i - 1);
        if i < s.len() {
            assert(seq![s[0]] + t.update(i - 1, (id, v)) =~= s.update(i, (id, v)));
        } else {
            assert(seq![s[0]] + t.push((id, v)) =~= s.push((id, v)));
        }
    }
}

proof fn lemma_upsert_unique(s: Seq<(SettingId, u64)>, id: SettingId, v: u64)
    requires
        settings_unique(s),
    ensures
        settings_unique(settings_upsert(s, id, v)),
    decreases s.len(),
{
    if s.len() > 0 && s[0].0 != id {
        let t = s.drop_first();
        lemma_upsert_unique(t, id, v);
        lemma_upsert_keys(t, id, v);
        let u = settings_upsert(t, id, v);
        assert(settings_upsert(s, id, v) == seq![s[0]] + u);
        assert forall|i: int, j: int| 0 <= i < j < (seq![s[0]] + u).len()
            implies (seq![s[0]] + u)[i].0 != (seq![s[0]] + u)[j].0 by {
            if i == 0 {
                let k = u[j - 1].0;
                if k != id {
                    let w = choose|w: int| 0 <= w < t.len() && t[w].0 == k;
                    assert(s[w + 1].0 == k);
                }
            }
        }
    }
}

proof fn lemma_upsert_keys(s: Seq<(SettingId, u64)>, id: SettingId, v: u64)
    ensures
        forall|j: int| 0 <= j < settings_upsert(s, id, v).len() ==>
            (#[trigger] settings_upsert(s, id, v)[j]).0 == id
                || exists|w: int| 0 <= w < s.len() && s[w].0 == settings_upsert(s, id, v)[j].0,
    decreases s.len(),
{
    if s.len() > 0 && s[0].0 != id {
        let t = s.drop_first();
        lemma_upsert_keys(t, id, v);
        let u = settings_upsert(t, id, v);
        assert forall|j: int| 0 <= j < settings_upsert(s, id, v).len() implies
            (#[trigger] settings_upsert(s, id, v)[j]).0 == id
                || exists|w: int| 0 <= w < s.len() && s[w].0 == settings_upsert(s, id, v)[j].0 by {
            if j == 0 {
                assert(s[0].0 == settings_upsert(s, id, v)[0].0);
            } else {
                assert(settings_upsert(s, id, v)[j] == u[j - 1]);
                if u[j - 1].0 != id {
                    let w = choose|w: int| 0 <= w < t.len() && t[w].0 == u[j - 1].0;
                    assert(s[w + 1].0 == u[j - 1].0);
                }
            }
        }
    } else if s.len() > 0 {
        assert forall|j: int| 0 <= j < settings_upsert(s, id, v).len() implies
            (#[trigger] settings_upsert(s, id, v)[j]).0 == id
                || exists|w: int| 0 <= w < s.len() && s[w].0 == settings_upsert(s, id, v)[j].0 by {
            if j != 0 {
                assert(s[j].0 == settings_upsert(s, id, v)[j].0);
            }
        }
    }
}

/// SETTINGS frame contents: setting identifiers with their values, each identifier at most once,
/// in the order in which they were first set.
#[derive(Debug)]
pub struct SettingsMap {
    entries: Vec<(SettingId, u64)>,
}

impl Clone for SettingsMap {
    fn clone(&self) -> (m: Self)
        ensures
            m@ == self@,
    {
        proof {
            use_type_invariant(self);
        }
        let mut entries: Vec<(SettingId, u64)> = Vec::new();
        let mut i: usize = 0;
        while i < self.entries.len()
            invariant
                0 <= i <= self.entries@.len(),
                entries@ == self.entries@.subrange(0, i as int),
            decreases self.entries@.len() - i,
        {
            entries.push(self.entries[i]);
            i = i + 1;
            assert(entries@ =~= self.entries@.subrange(0, i as int));
        }
        assert(entries@ =~= self.entries@);
        SettingsMap { entries }
    }
}

impl SettingsMap {
    /// No identifier occurs twice.
    #[verifier::type_invariant]
    spec fn entries_unique(self) -> bool {
        settings_unique(self.entries@)
    }
}

impl View for SettingsMap {
    type V = Seq<(SettingId, u64)>;

    closed spec fn view(&self) -> Seq<(SettingId, u64)> {
        self.entries@
    }
}

impl SettingsMap {
    /// An empty set of settings.
    pub fn new() -> (m: Self)
        ensures
            m@ == Seq::<(SettingId, u64)>::empty(),
            settings_unique(m@),
    {
        SettingsMap { entries: Vec::new() }
    }

    /// Set `id` to `value`: it replaces the value set for `id`, or is added after the others.
    pub fn insert(&mut self, id: SettingId, value: u64)
        ensures
            final(self)@ == settings_upsert(old(self)@, id, value),
            settings_unique(final(self)@),
            settings_lookup(final(self)@, id) == Some(value),
    {
        proof {
            use_type_invariant(&*self);
            lemma_upsert_keys(self@, id, value);
            lemma_upsert_lookup(self@, id, value);
            lemma_upsert_unique(self@, id, value);
        }
        let ghost s = self@;
        let mut entries: Vec<(SettingId, u64)> = Vec::new();
        std::mem::swap(&mut entries, &mut self.entries);
        let mut i: usize = 0;
        while i < entries.len()
            invariant
                0 <= i <= entries@.len(),
                entries@ == s,
                s == old(self)@,
                settings_unique(settings_upsert(s, id, value)),
                settings_lookup(settings_upsert(s, id, value), id) == Some(value),
                forall|j: int| 0 <= j < i ==> entries@[j].0 != id,
            decreases entries@.len() - i,
        {
            if entries[i].0 == id {
                proof {
                    lemma_upsert_at(s, id, value, i as int);
                }
                entries.set(i, (id, value));
                self.entries = entries;
                return;
            }
            i = i + 1;
        }
        proof {
            lemma_upsert_at(s, id, value, i as int);
        }
        entries.push((id, value));
        self.entries = entries;
    }

    /// The value set for `id`, if any.
    pub fn get(&self, id: SettingId) -> (v: Option<u64>)
        ensures
            v == settings_lookup(self@, id),
    {
        let mut i: usize = 0;
        assert(self@.subrange(0, self@.len() as int) =~= self@);
        while i < self.entries.len()
            invariant
                0 <= i <= self.entries@.len(),
                settings_lookup(self@, id) == settings_lookup(self@.subrange(i as int, self@.len() as int), id),
            decreases self.entries@.len() - i,
        {
            let ghost rest = self@.subrange(i as int, self@.len() as int);
            assert(rest.drop_first() =~= self@.subrange(i + 1, self@.len() as int));
            if self.entries[i].0 == id {
                return Some(self.entries[i].1);
            }
            i = i + 1;
        }
        None
    }

    /// Number of settings.
    pub fn len(&self) -> (n: usize)
        ensures
            n == self@.len(),
    {
        self.entries.len()
    }

    /// Whether no setting is present.
    pub fn is_empty(&self) -> (b: bool)
        ensures
            b == (self@.len() == 0),
    {
        self.entries.len() == 0
    }

    /// The entries in order; no identifier occurs twice.
    pub fn entries(&self) -> (s: &[(SettingId, u64)])
        ensures
            s@ == self@,
            settings_unique(s@),
    {
        proof {
            use_type_invariant(self);
        }
        self.entries.as_slice()
    }
}

proof fn lemma_upsert_lookup(s: Seq<(SettingId, u64)>, id: SettingId, v: u64)
    ensures
        settings_lookup(settings_upsert(s, id, v), id) == Some(v),
    decreases s.len(),
{
    if s.len() > 0 && s[0].0 != id {
        lemma_upsert_lookup(s.drop_first(), id, v);
        assert((seq![s[0]] + settings_upsert(s.drop_first(), id, v)).drop_first()
            =~= settings_upsert(s.drop_first(), id, v));
    }
}

} // verus!

verus! {

/// A map of HTTP header fields (`http::HeaderMap`).
#[verifier::external_type_specification]
#[verifier::external_body]
#[verifier::reject_recursive_types(T)]
pub struct ExHeaderMap<T>(http::HeaderMap<T>);

/// A header field value (`http::HeaderValue`).
#[verifier::external_type_specification]
#[verifier::external_body]
pub struct ExHeaderValue(http::HeaderValue);

/// The fields of a header map in the order the map yields them (`HeaderMap::iter`): each
/// field's name (as the map spells it, in lower case) and value, as bytes.
pub uninterp spec fn header_map_fields(m: http::HeaderMap) -> Seq<(Seq<u8>, Seq<u8>)>;

/// The fields other than those named `name`, in order.
pub open spec fn fields_without(h: Seq<(Seq<u8>, Seq<u8>)>, name: Seq<u8>) -> Seq<(Seq<u8>, Seq<u8>)>
    decreases h.len(),
{
    if h.len() == 0 {
        h
    } else if h.last().0 == name {
        fields_without(h.drop_last(), name)
    } else {
        fields_without(h.drop_last(), name).push(h.last())
    }
}

/// Whether a field is named `name`.
pub open spec fn has_field(h: Seq<(Seq<u8>, Seq<u8>)>, name: Seq<u8>) -> bool {
    exists|i: int| 0 <= i < h.len() && h[i].0 == name
}

/// The fields after setting `name` to `value` as a header map does: the first field of that
/// name takes the value where it stands and the others of that name go; without one the field
/// goes at the end.
pub open spec fn fields_set(h: Seq<(Seq<u8>, Seq<u8>)>, name: Seq<u8>, value: Seq<u8>) -> Seq<
    (Seq<u8>, Seq<u8>),
>
    decreases h.len(),
{
    if h.len() == 0 {
        seq![(name, value)]
    } else if h[0].0 == name {
        seq![(name, value)] + fields_without(h.drop_first(), name)
    } else {
        seq![h[0]] + fields_set(h.drop_first(), name, value)
    }
}

/// The fields after adding `value` under `name` as a header map does: right after the last
/// field of that name, or at the end when there is none.
pub open spec fn fields_append(h: Seq<(Seq<u8>, Seq<u8>)>, name: Seq<u8>, value: Seq<u8>) -> Seq<
    (Seq<u8>, Seq<u8>),
>
    decreases h.len(),
{
    if h.len() == 0 {
        seq![(name, value)]
    } else if h.last().0 == name || !has_field(h.drop_last(), name) {
        h.push((name, value))
    } else {
        fields_append(h.drop_last(), name, value).push(h.last())
    }
}

/// Whether `b` may stand in a header value: any byte from 32 up but DEL, or a tab.
pub open spec fn header_value_byte(b: u8) -> bool {
    (b >= 32 && b != 127) || b == 9
}

/// Whether every byte of `s` may stand in a header value.
pub open spec fn spec_header_value_valid(s: Seq<u8>) -> bool {
    forall|i: int| 0 <= i < s.len() ==> header_value_byte(s[i])
}

/// What `http::HeaderName::from_bytes` makes of `name`: the header name (lower case) when the
/// bytes form one.
pub uninterp spec fn header_name_parse(name: Seq<u8>) -> Option<Seq<u8>>;

/// The fields after `HeaderList::insert`: set as a header map does when the name parses and
/// the value is valid; unchanged otherwise.
pub open spec fn spec_set_header(
    h: Seq<(Seq<u8>, Seq<u8>)>,
    name: Seq<u8>,
    value: Seq<u8>,
) -> Seq<(Seq<u8>, Seq<u8>)> {
    match header_name_parse(name) {
        Some(n) => if spec_header_value_valid(value) {
            fields_set(h, n, value)
        } else {
            h
        },
        None => h,
    }
}

/// The fields after `HeaderList::append`: added as a header map does when the name parses and
/// the value is valid; unchanged otherwise.
pub open spec fn spec_append_header(
    h: Seq<(Seq<u8>, Seq<u8>)>,
    name: Seq<u8>,
    value: Seq<u8>,
) -> Seq<(Seq<u8>, Seq<u8>)> {
    match header_name_parse(name) {
        Some(n) => if spec_header_value_valid(value) {
            fields_append(h, n, value)
        } else {
            h
        },
        None => h,
    }
}

/// The value of the first field named `name`, if any.
pub open spec fn first_value(h: Seq<(Seq<u8>, Seq<u8>)>, name: Seq<u8>) -> Option<Seq<u8>>
    decreases h.len(),
{
    if h.len() == 0 {
        None
    } else if h[0].0 == name {
        Some(h[0].1)
    } else {
        first_value(h.drop_first(), name)
    }
}

/// The value of the first field that `name` names, when it parses as a header name.
pub open spec fn spec_get_header(h: Seq<(Seq<u8>, Seq<u8>)>, name: Seq<u8>) -> Option<Seq<u8>> {
    match header_name_parse(name) {
        Some(n) => first_value(h, n),
        None => None,
    }
}

/// The most fields a header map may hold before an insert: below it the map never needs to
/// grow past its size limit. (`HeaderMap` makes room before every insert or append; in the
/// worst case, with long probe sequences, it doubles its table once it holds a fifth of it,
/// and it refuses, by panicking, to grow past 2^15 slots; with at most 6553 entries that never
/// happens. Each entry holds at least one field.)
pub const MAX_HEADER_FIELDS: usize = 6553;

/// An empty header map (`HeaderMap::new`).
#[verifier::external_body]
fn map_new() -> (m: http::HeaderMap)
    ensures
        header_map_fields(m) == Seq::<(Seq<u8>, Seq<u8>)>::empty(),
{
    http::HeaderMap::new()
}

/// A copy of a header map (`HeaderMap::clone`), with the same fields in the same order.
#[verifier::external_body]
fn map_clone(m: &http::HeaderMap) -> (c: http::HeaderMap)
    ensures
        header_map_fields(c) == header_map_fields(*m),
{
    m.clone()
}

/// The number of fields (`HeaderMap::len`, which counts every value).
#[verifier::external_body]
fn map_len(m: &http::HeaderMap) -> (n: usize)
    ensures
        n == header_map_fields(*m).len(),
{
    m.len()
}

/// `HeaderMap::insert` with the name made by `HeaderName::from_bytes` and the value by
/// `HeaderValue::from_bytes`, when both succeed: the map's source replaces the first value of
/// an existing entry where it stands and drops the entry's other values, or adds a new entry
/// at the end. When either conversion fails the map is left alone.
#[verifier::external_body]
fn map_insert(m: &mut http::HeaderMap, name: &[u8], value: &[u8])
    requires
        header_map_fields(*old(m)).len() <= MAX_HEADER_FIELDS,
    ensures
        header_map_fields(*final(m)) == spec_set_header(header_map_fields(*old(m)), name@, value@),
        header_name_parse(name@) is None ==> header_map_fields(*final(m)) == header_map_fields(
            *old(m),
        ),
{
    if let (Ok(n), Ok(v)) = (http::HeaderName::from_bytes(name), http::HeaderValue::from_bytes(value)) {
        m.insert(n, v);
    }
}

/// `HeaderMap::append` with the name made by `HeaderName::from_bytes` and the value by
/// `HeaderValue::from_bytes`, when both succeed: the map's source adds the value after the
/// entry's other values (which the map yields together), or adds a new entry at the end. When
/// either conversion fails the map is left alone.
#[verifier::external_body]
fn map_append(m: &mut http::HeaderMap, name: &[u8], value: &[u8])
    requires
        header_map_fields(*old(m)).len() <= MAX_HEADER_FIELDS,
    ensures
        header_map_fields(*final(m)) == spec_append_header(header_map_fields(*old(m)), name@, value@),
{
    if let (Ok(n), Ok(v)) = (http::HeaderName::from_bytes(name), http::HeaderValue::from_bytes(value)) {
        m.append(n, v);
    }
}

/// `HeaderMap::get` with the name made by `HeaderName::from_bytes`: the first value of that
/// name, as bytes; none when the name does not parse.
#[verifier::external_body]
fn map_get<'a>(m: &'a http::HeaderMap, name: &[u8]) -> (v: Option<&'a [u8]>)
    ensures
        match v {
            Some(x) => spec_get_header(header_map_fields(*m), name@) == Some(x@),
            None => spec_get_header(header_map_fields(*m), name@) is None,
        },
{
    match http::HeaderName::from_bytes(name) {
        Ok(n) => m.get(&n).map(|v| v.as_bytes()),
        Err(_) => None,
    }
}

/// The fields of a header map in its order (`HeaderMap::iter`), each name and value as bytes.
#[verifier::external_body]
fn map_fields(m: &http::HeaderMap) -> (f: Vec<(Vec<u8>, Vec<u8>)>)
    ensures
        f@.len() == header_map_fields(*m).len(),
        forall|i: int| 0 <= i < f@.len() ==> (#[trigger] f@[i]).0@ == header_map_fields(*m)[i].0
            && f@[i].1@ == header_map_fields(*m)[i].1,
{
    m.iter().map(|(k, v)| (k.as_str().as_bytes().to_vec(), v.as_bytes().to_vec())).collect()
}

/// Total number of name and value bytes of the fields.
pub open spec fn header_bytes(h: Seq<(Seq<u8>, Seq<u8>)>) -> nat
    decreases h.len(),
{
    if h.len() == 0 {
        0
    } else {
        header_bytes(h.drop_last()) + h.last().0.len() + h.last().1.len()
    }
}

/// HTTP header fields, held in an `http::HeaderMap`: names in lower case, a name may hold more
/// than one value.
#[derive(Debug)]
pub struct HeaderList {
    map: http::HeaderMap,
}

impl View for HeaderList {
    type V = Seq<(Seq<u8>, Seq<u8>)>;

    closed spec fn view(&self) -> Seq<(Seq<u8>, Seq<u8>)> {
        header_map_fields(self.map)
    }
}

impl Clone for HeaderList {
    fn clone(&self) -> (h: Self)
        ensures
            h@ == self@,
    {
        HeaderList { map: map_clone(&self.map) }
    }
}

impl HeaderList {
    /// An empty header list.
    pub fn new() -> (h: Self)
        ensures
            h@ == Seq::<(Seq<u8>, Seq<u8>)>::empty(),
    {
        HeaderList { map: map_new() }
    }

    /// Number of fields (every value counts).
    pub fn len(&self) -> (n: usize)
        ensures
            n == self@.len(),
    {
        map_len(&self.map)
    }

    /// Whether there is no field.
    pub fn is_empty(&self) -> (b: bool)
        ensures
            b == (self@.len() == 0),
    {
        map_len(&self.map) == 0
    }

    /// Add a value under `name`, keeping the name's other values; nothing changes when the
    /// name is not a header name or the value not a header value. The list must hold at most
    /// `MAX_HEADER_FIELDS` fields.
    pub fn append(&mut self, name: &[u8], value: &[u8])
        requires
            old(self)@.len() <= MAX_HEADER_FIELDS,
        ensures
            final(self)@ == spec_append_header(old(self)@, name@, value@),
    {
        map_append(&mut self.map, name, value);
    }

    /// Set `name` to `value`, dropping the name's other values; nothing changes when the name
    /// is not a header name or the value not a header value. The list must hold at most
    /// `MAX_HEADER_FIELDS` fields.
    pub fn insert(&mut self, name: &[u8], value: &[u8])
        requires
            old(self)@.len() <= MAX_HEADER_FIELDS,
        ensures
            final(self)@ == spec_set_header(old(self)@, name@, value@),
    {
        map_insert(&mut self.map, name, value);
    }

    /// The first value under `name`, if any.
    pub fn get(&self, name: &[u8]) -> (v: Option<&[u8]>)
        ensures
            match v {
                Some(x) => spec_get_header(self@, name@) == Some(x@),
                None => spec_get_header(self@, name@) is None,
            },
    {
        map_get(&self.map, name)
    }

    /// The total number of name and value bytes, when it fits in a `usize`.
    pub fn total_bytes(&self) -> (n: Option<usize>)
        ensures
            match n {
                Some(k) => k == header_bytes(self@),
                None => header_bytes(self@) > usize::MAX,
            },
    {
        let fields = map_fields(&self.map);
        let ghost h = self@;
        assert(h =~= Seq::new(fields@.len(), |i: int| (fields@[i].0@, fields@[i].1@)));
        let mut total: usize = 0;
        let mut i: usize = 0;
        while i < fields.len()
            invariant
                0 <= i <= fields@.len(),
                h == self@,
                h.len() == fields@.len(),
                forall|j: int| 0 <= j < fields@.len() ==> (#[trigger] fields@[j]).0@ == h[j].0
                    && fields@[j].1@ == h[j].1,
                total == header_bytes(h.subrange(0, i as int)),
            decreases fields@.len() - i,
        {
            assert(h.subrange(0, i + 1).drop_last() =~= h.subrange(0, i as int));
            let a = fields[i].0.len();
            let b = fields[i].1.len();
            assert(fields@[i as int].0@ == h[i as int].0);
            if a > usize::MAX - total || b > usize::MAX - total - a {
                proof {
                    lemma_header_bytes_prefix(h, i + 1);
                }
                return None;
            }
            total = total + a + b;
            i = i + 1;
        }
        assert(h.subrange(0, h.len() as int) =~= h);
        Some(total)
    }
}

proof fn lemma_header_bytes_prefix(h: Seq<(Seq<u8>, Seq<u8>)>, k: int)
    requires
        0 <= k <= h.len(),
    ensures
        header_bytes(h.subrange(0, k)) <= header_bytes(h),
    decreases h.len() - k,
{
    if k < h.len() {
        lemma_header_bytes_prefix(h, k + 1);
        assert(h.subrange(0, k + 1).drop_last() =~= h.subrange(0, k));
    } else {
        assert(h.subrange(0, k) =~= h);
    }
}

} // verus!

verus! {

/// HTTP/3 frame representation with all frame types.
#[derive(Debug)]
pub enum H3Frame {
    /// DATA frame (0x00) - carries request/response body
    Data {
        /// Stream identifier
        stream_id: u64,
        /// Frame payload data
        data: Vec<u8>,
        /// Whether this frame ends the stream
        end_stream: bool,
    },
    /// HEADERS frame (0x01) - carries request/response headers
    Headers {
        /// Stream identifier
        stream_id: u64,
        /// HTTP headers
        headers: HeaderList,
        /// Whether this frame ends the stream
        end_stream: bool,
        /// Priority information (optional)
        priority: Option<Priority>,
    },
    /// CANCEL_PUSH frame (0x03) - cancels server push
    CancelPush {
        /// Push ID to cancel
        push_id: u64,
    },
    /// SETTINGS frame (0x04) - carries connection settings
    Settings {
        /// Settings key-value pairs
        settings: SettingsMap,
    },
    /// PUSH_PROMISE frame (0x05) - server push promise
    PushPromise {
        /// Stream identifier
        stream_id: u64,
        /// Promised stream identifier
        promised_stream_id: u64,
        /// Request headers for the promised response
        headers: HeaderList,
    },
    /// GOAWAY frame (0x07) - graceful connection termination
    Goaway {
        /// Last processed stream ID
        stream_id: u64,
    },
    /// MAX_PUSH_ID frame (0x0D) - maximum push stream ID
    MaxPushId {
        /// Maximum push stream ID
        push_id: u64,
    },
}

/// The mathematical value of a frame: byte strings as sequences.
pub enum FrameModel {
    Data { stream_id: u64, data: Seq<u8>, end_stream: bool },
    Headers {
        stream_id: u64,
        headers: Seq<(Seq<u8>, Seq<u8>)>,
        end_stream: bool,
        priority: Option<Priority>,
    },
    CancelPush { push_id: u64 },
    Settings { settings: Seq<(SettingId, u64)> },
    PushPromise { stream_id: u64, promised_stream_id: u64, headers: Seq<(Seq<u8>, Seq<u8>)> },
    Goaway { stream_id: u64 },
    MaxPushId { push_id: u64 },
}

impl View for H3Frame {
    type V = FrameModel;

    open spec fn view(&self) -> FrameModel {
        match self {
            H3Frame::Data { stream_id, data, end_stream } => FrameModel::Data {
                stream_id: *stream_id,
                data: data@,
                end_stream: *end_stream,
            },
            H3Frame::Headers { stream_id, headers, end_stream, priority } => FrameModel::Headers {
                stream_id: *stream_id,
                headers: headers@,
                end_stream: *end_stream,
                priority: *priority,
            },
            H3Frame::CancelPush { push_id } => FrameModel::CancelPush { push_id: *push_id },
            H3Frame::Settings { settings } => FrameModel::Settings { settings: settings@ },
            H3Frame::PushPromise { stream_id, promised_stream_id, headers } => FrameModel::PushPromise {
                stream_id: *stream_id,
                promised_stream_id: *promised_stream_id,
                headers: headers@,
            },
            H3Frame::Goaway { stream_id } => FrameModel::Goaway { stream_id: *stream_id },
            H3Frame::MaxPushId { push_id } => FrameModel::MaxPushId { push_id: *push_id },
        }
    }
}

/// The type of a frame.
pub open spec fn model_frame_type(f: FrameModel) -> FrameType {
    match f {
        FrameModel::Data { .. } => FrameType::Data,
        FrameModel::Headers { .. } => FrameType::Headers,
        FrameModel::CancelPush { .. } => FrameType::CancelPush,
        FrameModel::Settings { .. } => FrameType::Settings,
        FrameModel::PushPromise { .. } => FrameType::PushPromise,
        FrameModel::Goaway { .. } => FrameType::Goaway,
        FrameModel::MaxPushId { .. } => FrameType::MaxPushId,
    }
}

/// The stream a frame names, if it names one.
pub open spec fn model_stream_id(f: FrameModel) -> Option<u64> {
    match f {
        FrameModel::Data { stream_id, .. } => Some(stream_id),
        FrameModel::Headers { stream_id, .. } => Some(stream_id),
        FrameModel::PushPromise { stream_id, .. } => Some(stream_id),
        FrameModel::Goaway { stream_id } => Some(stream_id),
        _ => None,
    }
}

/// Whether the frame ends its stream.
pub open spec fn model_end_stream(f: FrameModel) -> bool {
    match f {
        FrameModel::Data { end_stream, .. } => end_stream,
        FrameModel::Headers { end_stream, .. } => end_stream,
        _ => false,
    }
}

/// The payload size estimate of a frame: the exact data length, the header bytes, a fixed 8
/// for a varint field, 16 per setting.
pub open spec fn model_payload_size(f: FrameModel) -> nat {
    match f {
        FrameModel::Data { data, .. } => data.len(),
        FrameModel::Headers { headers, .. } => header_bytes(headers),
        FrameModel::CancelPush { .. } => 8,
        FrameModel::Settings { settings } => settings.len() * 16,
        FrameModel::PushPromise { headers, .. } => 8 + header_bytes(headers),
        FrameModel::Goaway { .. } => 8,
        FrameModel::MaxPushId { .. } => 8,
    }
}

/// Whether a frame belongs to the connection rather than to a stream.
pub open spec fn model_is_connection_frame(f: FrameModel) -> bool {
    f is Settings || f is Goaway || f is MaxPushId || f is CancelPush
}

impl H3Frame {
    /// Get the frame type.
    pub fn frame_type(&self) -> (t: FrameType)
        ensures
            t == model_frame_type(self@),
    {
        match self {
            H3Frame::Data { .. } => FrameType::Data,
            H3Frame::Headers { .. } => FrameType::Headers,
            H3Frame::CancelPush { .. } => FrameType::CancelPush,
            H3Frame::Settings { .. } => FrameType::Settings,
            H3Frame::PushPromise { .. } => FrameType::PushPromise,
            H3Frame::Goaway { .. } => FrameType::Goaway,
            H3Frame::MaxPushId { .. } => FrameType::MaxPushId,
        }
    }

    /// Get the stream ID if applicable.
    pub fn stream_id(&self) -> (id: Option<u64>)
        ensures
            id == model_stream_id(self@),
    {
        match self {
            H3Frame::Data { stream_id, .. } => Some(*stream_id),
            H3Frame::Headers { stream_id, .. } => Some(*stream_id),
            H3Frame::PushPromise { stream_id, .. } => Some(*stream_id),
            H3Frame::Goaway { stream_id } => Some(*stream_id),
            H3Frame::CancelPush { .. } => None,
            H3Frame::Settings { .. } => None,
            H3Frame::MaxPushId { .. } => None,
        }
    }

    /// Check if this frame ends the stream.
    pub fn is_end_stream(&self) -> (b: bool)
        ensures
            b == model_end_stream(self@),
    {
        match self {
            H3Frame::Data { end_stream, .. } => *end_stream,
            H3Frame::Headers { end_stream, .. } => *end_stream,
            _ => false,
        }
    }

    /// Get the frame payload size.
    pub fn payload_size(&self) -> (n: usize)
        requires
            model_payload_size(self@) <= usize::MAX,
        ensures
            n == model_payload_size(self@),
    {
        match self {
            H3Frame::Data { data, .. } => data.len(),
            H3Frame::Headers { headers, .. } => {
                match headers.total_bytes() {
                    Some(n) => n,
                    None => 0,
                }
            },
            H3Frame::CancelPush { .. } => 8,
            H3Frame::Settings { settings } => settings.len() * 16,
            H3Frame::PushPromise { headers, .. } => {
                match headers.total_bytes() {
                    Some(n) => 8 + n,
                    None => 0,
                }
            },
            H3Frame::Goaway { .. } => 8,
            H3Frame::MaxPushId { .. } => 8,
        }
    }

    /// Check if this is a connection-level frame.
    pub fn is_connection_frame(&self) -> (b: bool)
        ensures
            b == model_is_connection_frame(self@),
    {
        match self {
            H3Frame::Settings { .. } => true,
            H3Frame::Goaway { .. } => true,
            H3Frame::MaxPushId { .. } => true,
            H3Frame::CancelPush { .. } => true,
            _ => false,
        }
    }

    /// Check if this is a stream-level frame.
    pub fn is_stream_frame(&self) -> (b: bool)
        ensures
            b == !model_is_connection_frame(self@),
    {
        !self.is_connection_frame()
    }
}

} // verus!

verus! {


/// The bytes of a settings payload: each identifier's code and value, as varints, in order.
pub open spec fn settings_bytes(s: Seq<(SettingId, u64)>) -> Seq<u8>
    decreases s.len(),
{
    if s.len() == 0 {
        Seq::empty()
    } else {
        settings_bytes(s.drop_last()) + spec_varint_encode(spec_setting_code(s.last().0))
            + spec_varint_encode(s.last().1)
    }
}

/// The payload that `encode_frame` writes for a frame. Header blocks are written empty.
pub open spec fn spec_encode_payload(f: FrameModel) -> Seq<u8> {
    match f {
        FrameModel::Data { data, .. } => data,
        FrameModel::Headers { .. } => Seq::empty(),
        FrameModel::CancelPush { push_id } => spec_varint_encode(push_id),
        FrameModel::Settings { settings } => settings_bytes(settings),
        FrameModel::PushPromise { promised_stream_id, .. } => spec_varint_encode(promised_stream_id),
        FrameModel::Goaway { stream_id } => spec_varint_encode(stream_id),
        FrameModel::MaxPushId { push_id } => spec_varint_encode(push_id),
    }
}

/// The full encoding of a frame: type, payload length, payload.
pub open spec fn spec_encode_frame(f: FrameModel) -> Seq<u8> {
    let payload = spec_encode_payload(f);
    spec_varint_encode(spec_frame_type_code(model_frame_type(f))) + spec_varint_encode(
        payload.len() as u64,
    ) + payload
}

/// Parse the settings in `s` into `acc`: pairs of varints, unknown identifiers ignored, a later
/// value for an identifier replacing the earlier one. `None` when `s` ends inside a pair.
pub open spec fn spec_parse_settings(s: Seq<u8>, acc: Seq<(SettingId, u64)>) -> Option<Seq<(SettingId, u64)>>
    decreases s.len(),
{
    if s.len() == 0 {
        Some(acc)
    } else {
        match spec_varint_decode(s) {
            None => None,
            Some((k, n1)) => match spec_varint_decode(s.skip(n1 as int)) {
                None => None,
                Some((v, n2)) => {
                    let acc2 = match spec_setting_of(k) {
                        Some(id) => settings_upsert(acc, id, v),
                        None => acc,
                    };
                    if n1 + n2 <= s.len() && n1 >= 1 {
                        spec_parse_settings(s.skip((n1 + n2) as int), acc2)
                    } else {
                        None
                    }
                },
            },
        }
    }
}

/// The frame that a payload of type `t` parses to; `None` when a varint in it is incomplete.
/// Stream identifiers and end-of-stream flags are not carried in payloads and come out as 0 and
/// false; header blocks are not decoded and come out empty.
pub open spec fn spec_parse_payload(t: FrameType, p: Seq<u8>) -> Option<FrameModel> {
    match t {
        FrameType::Data => Some(FrameModel::Data { stream_id: 0, data: p, end_stream: false }),
        FrameType::Headers => Some(
            FrameModel::Headers {
                stream_id: 0,
                headers: Seq::empty(),
                end_stream: false,
                priority: None,
            },
        ),
        FrameType::CancelPush => match spec_varint_decode(p) {
            Some((v, _)) => Some(FrameModel::CancelPush { push_id: v }),
            None => None,
        },
        FrameType::Settings => match spec_parse_settings(p, Seq::empty()) {
            Some(s) => Some(FrameModel::Settings { settings: s }),
            None => None,
        },
        FrameType::PushPromise => match spec_varint_decode(p) {
            Some((v, _)) => Some(
                FrameModel::PushPromise { stream_id: 0, promised_stream_id: v, headers: Seq::empty() },
            ),
            None => None,
        },
        FrameType::Goaway => match spec_varint_decode(p) {
            Some((v, _)) => Some(FrameModel::Goaway { stream_id: v }),
            None => None,
        },
        FrameType::MaxPushId => match spec_varint_decode(p) {
            Some((v, _)) => Some(FrameModel::MaxPushId { push_id: v }),
            None => None,
        },
    }
}

fn append_bytes(buf: &mut Vec<u8>, data: &[u8])
    ensures
        final(buf)@ == old(buf)@ + data@,
{
    let mut i: usize = 0;
    while i < data.len()
        invariant
            0 <= i <= data@.len(),
            buf@ == old(buf)@ + data@.subrange(0, i as int),
        decreases data@.len() - i,
    {
        buf.push(data[i]);
        i = i + 1;
        assert(buf@ =~= old(buf)@ + data@.subrange(0, i as int));
    }
    assert(data@.subrange(0, data@.len() as int) =~= data@);
}

/// Parse SETTINGS frame payload.
fn parse_settings(payload: &[u8]) -> (res: H3Result<SettingsMap>)
    ensures
        match spec_parse_settings(payload@, Seq::empty()) {
            Some(s) => res matches Ok(m) && m@ == s,
            None => res matches Err(H3Error::Parse(ParseError::Incomplete)),
        },
{
    let mut settings = SettingsMap::new();
    let mut pos: usize = 0;
    assert(payload@.skip(0) =~= payload@);
    while pos < payload.len()
        invariant
            0 <= pos <= payload@.len(),
            spec_parse_settings(payload@, Seq::empty()) == spec_parse_settings(
                payload@.skip(pos as int),
                settings@,
            ),
        decreases payload@.len() - pos,
    {
        let ghost s = payload@.skip(pos as int);
        assert(payload@.subrange(pos as int, payload@.len() as int) =~= s);
        let (key_raw, p1) = match read_varint(payload, pos) {
            Ok(r) => r,
            Err(e) => {
                return Err(H3Error::Parse(e));
            },
        };
        assert(payload@.subrange(p1 as int, payload@.len() as int) =~= s.skip((p1 - pos) as int));
        let (value, p2) = match read_varint(payload, p1) {
            Ok(r) => r,
            Err(e) => {
                return Err(H3Error::Parse(e));
            },
        };
        if let Ok(setting_id) = SettingId::try_from(key_raw) {
            settings.insert(setting_id, value);
        }
        assert(s.skip((p2 - pos) as int) =~= payload@.skip(p2 as int));
        pos = p2;
    }
    assert(payload@.skip(pos as int) =~= Seq::<u8>::empty());
    Ok(settings)
}

/// Encode the settings entries as varint pairs.
fn encode_settings(buf: &mut Vec<u8>, settings: &SettingsMap)
    ensures
        final(buf)@ == old(buf)@ + settings_bytes(settings@),
{
    let entries = settings.entries();
    let mut i: usize = 0;
    while i < entries.len()
        invariant
            0 <= i <= entries@.len(),
            entries@ == settings@,
            buf@ == old(buf)@ + settings_bytes(entries@.subrange(0, i as int)),
        decreases entries@.len() - i,
    {
        let (key, value) = entries[i];
        let ghost before = buf@;
        write_varint(buf, key.to_u64());
        write_varint(buf, value);
        proof {
            let t = entries@.subrange(0, i + 1);
            assert(t.drop_last() =~= entries@.subrange(0, i as int));
            assert(buf@ =~= old(buf)@ + settings_bytes(t));
        }
        i = i + 1;
    }
    assert(entries@.subrange(0, entries@.len() as int) =~= entries@);
}

/// Encode frame payload.
fn encode_frame_payload(frame: &H3Frame) -> (payload: Vec<u8>)
    ensures
        payload@ == spec_encode_payload(frame@),
{
    let mut buf: Vec<u8> = Vec::new();
    match frame {
        H3Frame::Data { data, .. } => {
            append_bytes(&mut buf, data.as_slice());
        },
        H3Frame::Headers { .. } => {},
        H3Frame::CancelPush { push_id } => {
            write_varint(&mut buf, *push_id);
        },
        H3Frame::Settings { settings } => {
            encode_settings(&mut buf, settings);
        },
        H3Frame::PushPromise { promised_stream_id, .. } => {
            write_varint(&mut buf, *promised_stream_id);
        },
        H3Frame::Goaway { stream_id } => {
            write_varint(&mut buf, *stream_id);
        },
        H3Frame::MaxPushId { push_id } => {
            write_varint(&mut buf, *push_id);
        },
    }
    assert(buf@ =~= spec_encode_payload(frame@));
    buf
}

/// Parse frame payload based on frame type.
fn parse_frame_payload(frame_type: FrameType, payload: Vec<u8>) -> (res: H3Result<H3Frame>)
    ensures
        match spec_parse_payload(frame_type, payload@) {
            Some(f) => res matches Ok(fr) && fr@ == f,
            None => res matches Err(H3Error::Parse(ParseError::Incomplete)),
        },
{
    assert(payload@.subrange(0, payload@.len() as int) =~= payload@);
    match frame_type {
        FrameType::Data => Ok(H3Frame::Data { stream_id: 0, data: payload, end_stream: false }),
        FrameType::Headers => Ok(
            H3Frame::Headers {
                stream_id: 0,
                headers: HeaderList::new(),
                end_stream: false,
                priority: None,
            },
        ),
        FrameType::CancelPush => match read_varint(payload.as_slice(), 0) {
            Ok((push_id, _)) => Ok(H3Frame::CancelPush { push_id }),
            Err(e) => Err(H3Error::Parse(e)),
        },
        FrameType::Settings => {
            let settings = parse_settings(payload.as_slice())?;
            Ok(H3Frame::Settings { settings })
        },
        FrameType::PushPromise => match read_varint(payload.as_slice(), 0) {
            Ok((promised_stream_id, _)) => Ok(
                H3Frame::PushPromise { stream_id: 0, promised_stream_id, headers: HeaderList::new() },
            ),
            Err(e) => Err(H3Error::Parse(e)),
        },
        FrameType::Goaway => match read_varint(payload.as_slice(), 0) {
            Ok((stream_id, _)) => Ok(H3Frame::Goaway { stream_id }),
            Err(e) => Err(H3Error::Parse(e)),
        },
        FrameType::MaxPushId => match read_varint(payload.as_slice(), 0) {
            Ok((push_id, _)) => Ok(H3Frame::MaxPushId { push_id }),
            Err(e) => Err(H3Error::Parse(e)),
        },
    }
}

} // verus!

verus! {

/// Parser state for incremental frame parsing.
#[derive(Debug, Clone, Copy, PartialEq, Eq, Structural)]
pub enum ParserState {
    /// Waiting for frame header (type + length)
    WaitingHeader,
    /// Reading frame payload
    ReadingPayload { frame_type: FrameType, length: usize },
}

/// Parser statistics for monitoring and debugging.
#[derive(Debug, Clone, Copy, PartialEq, Eq, Structural)]
pub struct ParserStats {
    /// Total frames parsed successfully
    pub frames_parsed: u64,
    /// Total bytes processed
    pub bytes_processed: u64,
    /// Parse errors encountered
    pub parse_errors: u64,
    /// Buffer overflows
    pub buffer_overflows: u64,
}

/// All counters at zero.
pub open spec fn zero_stats() -> ParserStats {
    ParserStats { frames_parsed: 0, bytes_processed: 0, parse_errors: 0, buffer_overflows: 0 }
}

impl Default for ParserStats {
    fn default() -> (s: Self)
        ensures
            s == zero_stats(),
    {
        ParserStats { frames_parsed: 0, bytes_processed: 0, parse_errors: 0, buffer_overflows: 0 }
    }
}

/// The state of a frame parser: buffered bytes, parse state, limits and counters.
pub struct ParserModel {
    pub buffer: Seq<u8>,
    pub state: ParserState,
    pub max_frame_size: usize,
    pub max_buffer_size: usize,
    pub stats: ParserStats,
}

/// What reading a frame header from the buffer gives.
pub enum HeaderStep {
    /// The buffer does not yet hold a whole header.
    NeedMore,
    /// The frame type code is not a known frame type.
    UnknownType { code: u64 },
    /// The announced payload length is above the frame size limit.
    TooLarge { length: u64 },
    /// A complete header: frame type, payload length and the header's own length.
    Header { frame_type: FrameType, length: u64, header_len: nat },
}

/// What a parse call gives back.
pub enum ParseOutcome {
    /// The data did not fit in the buffer limit.
    Overflow,
    /// More data is needed before a frame is complete.
    NeedMore,
    /// A frame was parsed.
    Frame(FrameModel),
    /// An unknown frame type was announced.
    UnknownType(u64),
    /// A payload length above the limit `max` was announced.
    TooLarge { length: u64, max: usize },
    /// A varint inside the payload was cut short.
    Incomplete,
}

/// Read a frame header (type and payload length, both varints) from the start of `buf`.
pub open spec fn spec_header_step(buf: Seq<u8>, max_frame_size: usize) -> HeaderStep {
    if buf.len() < 2 {
        HeaderStep::NeedMore
    } else {
        match spec_varint_decode(buf) {
            None => HeaderStep::NeedMore,
            Some((code, n1)) => match spec_frame_type_of(code) {
                None => HeaderStep::UnknownType { code },
                Some(ft) => match spec_varint_decode(buf.skip(n1 as int)) {
                    None => HeaderStep::NeedMore,
                    Some((length, n2)) => if length > max_frame_size {
                        HeaderStep::TooLarge { length }
                    } else {
                        HeaderStep::Header { frame_type: ft, length, header_len: n1 + n2 }
                    },
                },
            },
        }
    }
}

/// The parser with one more parse error counted.
pub open spec fn with_error(q: ParserModel) -> ParserModel {
    ParserModel {
        stats: ParserStats { parse_errors: (q.stats.parse_errors + 1) as u64, ..q.stats },
        ..q
    }
}

/// The payload stage: once the whole payload is buffered, it is taken out of the buffer and
/// parsed, and the parser waits for the next header.
pub open spec fn spec_payload_stage(q: ParserModel) -> (ParserModel, ParseOutcome) {
    match q.state {
        ParserState::WaitingHeader => (q, ParseOutcome::NeedMore),
        ParserState::ReadingPayload { frame_type, length } => if q.buffer.len() < length {
            (q, ParseOutcome::NeedMore)
        } else {
            let r = ParserModel {
                buffer: q.buffer.skip(length as int),
                state: ParserState::WaitingHeader,
                ..q
            };
            match spec_parse_payload(frame_type, q.buffer.take(length as int)) {
                Some(f) => (
                    ParserModel {
                        stats: ParserStats {
                            frames_parsed: (q.stats.frames_parsed + 1) as u64,
                            ..q.stats
                        },
                        ..r
                    },
                    ParseOutcome::Frame(f),
                ),
                None => (with_error(r), ParseOutcome::Incomplete),
            }
        },
    }
}

/// One parse step on the buffered bytes: read a header if one is awaited, then the payload.
pub open spec fn spec_parse_buffered(q: ParserModel) -> (ParserModel, ParseOutcome) {
    match q.state {
        ParserState::WaitingHeader => match spec_header_step(q.buffer, q.max_frame_size) {
            HeaderStep::NeedMore => (q, ParseOutcome::NeedMore),
            HeaderStep::UnknownType { code } => (with_error(q), ParseOutcome::UnknownType(code)),
            HeaderStep::TooLarge { length } => (
                with_error(q),
                ParseOutcome::TooLarge { length, max: q.max_frame_size },
            ),
            HeaderStep::Header { frame_type, length, header_len } => spec_payload_stage(
                ParserModel {
                    buffer: q.buffer.skip(header_len as int),
                    state: ParserState::ReadingPayload { frame_type, length: length as usize },
                    ..q
                },
            ),
        },
        ParserState::ReadingPayload { .. } => spec_payload_stage(q),
    }
}

/// `parse_frame`: refuse data that would take the buffer above its limit, else buffer it and
/// take one parse step.
pub open spec fn spec_parse_frame(p: ParserModel, data: Seq<u8>) -> (ParserModel, ParseOutcome) {
    if p.buffer.len() + data.len() > p.max_buffer_size {
        (
            ParserModel {
                stats: ParserStats {
                    buffer_overflows: (p.stats.buffer_overflows + 1) as u64,
                    ..p.stats
                },
                ..p
            },
            ParseOutcome::Overflow,
        )
    } else {
        spec_parse_buffered(
            ParserModel {
                buffer: p.buffer + data,
                stats: ParserStats {
                    bytes_processed: (p.stats.bytes_processed + data.len()) as u64,
                    ..p.stats
                },
                ..p
            },
        )
    }
}

/// Whether a parse result is the outcome `o`.
pub open spec fn result_is_outcome(res: H3Result<Option<H3Frame>>, o: ParseOutcome) -> bool {
    match o {
        ParseOutcome::Overflow => res matches Err(H3Error::Parse(ParseError::BufferOverflow)),
        ParseOutcome::NeedMore => res matches Ok(None),
        ParseOutcome::Frame(f) => res matches Ok(Some(fr)) && fr@ == f,
        ParseOutcome::UnknownType(code) => res matches Err(
            H3Error::Parse(ParseError::InvalidFormat(msg)),
        ) && msg@ == unknown_frame_type_text(code),
        ParseOutcome::TooLarge { length, max } => res matches Err(
            H3Error::Parse(ParseError::FrameTooLarge { size, max: m }),
        ) && size == length as usize && m == max,
        ParseOutcome::Incomplete => res matches Err(H3Error::Parse(ParseError::Incomplete)),
    }
}

/// Whether a parse error is the error outcome `o`.
pub open spec fn error_is_outcome(e: H3Error, o: ParseOutcome) -> bool {
    result_is_outcome(Err(e), o)
}

/// No counter can overflow in a parse call with `data_len` new bytes.
pub open spec fn stats_room(p: ParserModel, data_len: nat) -> bool {
    &&& p.stats.frames_parsed < u64::MAX
    &&& p.stats.parse_errors < u64::MAX
    &&& p.stats.buffer_overflows < u64::MAX
    &&& p.stats.bytes_processed + data_len <= u64::MAX
}

/// A measure that every parsed frame brings down.
pub open spec fn parse_measure(q: ParserModel) -> nat {
    2 * q.buffer.len() + if q.state is ReadingPayload { 1nat } else { 0nat }
}

/// Parse frames from the buffer until one is incomplete or an error occurs.
pub open spec fn spec_parse_all(q: ParserModel, acc: Seq<FrameModel>) -> (
    ParserModel,
    Result<Seq<FrameModel>, ParseOutcome>,
)
    decreases parse_measure(q),
{
    let (r, o) = spec_parse_buffered(q);
    match o {
        ParseOutcome::Frame(f) => if parse_measure(r) < parse_measure(q) {
            spec_parse_all(r, acc.push(f))
        } else {
            (r, Ok(acc.push(f)))
        },
        ParseOutcome::NeedMore => (r, Ok(acc)),
        _ => (r, Err(o)),
    }
}

/// Whether the buffer holds a complete header and the payload it announces (the frame type is
/// not checked).
pub open spec fn spec_has_complete_frame(buf: Seq<u8>) -> bool {
    buf.len() >= 2 && match spec_varint_decode(buf) {
        None => false,
        Some((_, n1)) => match spec_varint_decode(buf.skip(n1 as int)) {
            None => false,
            Some((length, n2)) => buf.len() >= n1 + n2 + length,
        },
    }
}

/// The values of a sequence of frames.
pub open spec fn frames_view(v: Seq<H3Frame>) -> Seq<FrameModel> {
    Seq::new(v.len(), |i: int| v[i]@)
}

proof fn lemma_decode_len(s: Seq<u8>)
    requires
        spec_varint_decode(s) is Some,
    ensures
        1 <= spec_varint_decode(s).unwrap().1 <= s.len(),
{
}

/// A parse step that yields a frame brings the measure down.
pub proof fn lemma_parse_progress(q: ParserModel)
    requires
        spec_parse_buffered(q).1 is Frame,
    ensures
        parse_measure(spec_parse_buffered(q).0) < parse_measure(q),
{
    if q.state is WaitingHeader {
        lemma_decode_len(q.buffer);
        let n1 = spec_varint_decode(q.buffer).unwrap().1;
        lemma_decode_len(q.buffer.skip(n1 as int));
    }
}

/// HTTP/3 frame parser with incremental parsing support.
#[derive(Debug)]
pub struct FrameParser {
    /// Internal buffer for incomplete frames
    buffer: Vec<u8>,
    /// Current parser state
    state: ParserState,
    /// Maximum allowed frame size
    max_frame_size: usize,
    /// Maximum buffer size to prevent memory exhaustion
    max_buffer_size: usize,
    /// Statistics for monitoring
    stats: ParserStats,
}

impl View for FrameParser {
    type V = ParserModel;

    closed spec fn view(&self) -> ParserModel {
        ParserModel {
            buffer: self.buffer@,
            state: self.state,
            max_frame_size: self.max_frame_size,
            max_buffer_size: self.max_buffer_size,
            stats: self.stats,
        }
    }
}

/// A parser with an empty buffer and zero counters, waiting for a header.
pub open spec fn fresh_parser(max_frame_size: usize, max_buffer_size: usize) -> ParserModel {
    ParserModel {
        buffer: Seq::empty(),
        state: ParserState::WaitingHeader,
        max_frame_size,
        max_buffer_size,
        stats: zero_stats(),
    }
}

impl FrameParser {
    /// Create a new frame parser with default settings (16 KiB frames, 64 KiB buffer).
    pub fn new() -> (p: Self)
        ensures
            p@ == fresh_parser(16384, 65536),
    {
        FrameParser {
            buffer: Vec::new(),
            state: ParserState::WaitingHeader,
            max_frame_size: 16384,
            max_buffer_size: 65536,
            stats: ParserStats::default(),
        }
    }

    /// Create a new frame parser with custom max frame size and a buffer four times as large.
    pub fn with_max_frame_size(max_size: usize) -> (p: Self)
        requires
            max_size * 4 <= usize::MAX,
        ensures
            p@ == fresh_parser(max_size, (max_size * 4) as usize),
    {
        FrameParser {
            buffer: Vec::new(),
            state: ParserState::WaitingHeader,
            max_frame_size: max_size,
            max_buffer_size: max_size * 4,
            stats: ParserStats::default(),
        }
    }

    /// Create a new frame parser with custom settings.
    pub fn with_config(max_frame_size: usize, max_buffer_size: usize) -> (p: Self)
        ensures
            p@ == fresh_parser(max_frame_size, max_buffer_size),
    {
        FrameParser {
            buffer: Vec::new(),
            state: ParserState::WaitingHeader,
            max_frame_size,
            max_buffer_size,
            stats: ParserStats::default(),
        }
    }

    /// Get parser statistics.
    pub fn stats(&self) -> (s: &ParserStats)
        ensures
            *s == self@.stats,
    {
        &self.stats
    }

    /// Get the maximum frame size.
    pub fn max_frame_size(&self) -> (n: usize)
        ensures
            n == self@.max_frame_size,
    {
        self.max_frame_size
    }

    /// Get the maximum buffer size.
    pub fn max_buffer_size(&self) -> (n: usize)
        ensures
            n == self@.max_buffer_size,
    {
        self.max_buffer_size
    }

    /// Get the parse state.
    pub fn state(&self) -> (s: ParserState)
        ensures
            s == self@.state,
    {
        self.state
    }

    /// Reset parser statistics.
    pub fn reset_stats(&mut self)
        ensures
            final(self)@ == (ParserModel { stats: zero_stats(), ..old(self)@ }),
    {
        self.stats = ParserStats::default();
    }

    /// Get current buffer size.
    pub fn buffer_size(&self) -> (n: usize)
        ensures
            n == self@.buffer.len(),
    {
        self.buffer.len()
    }

    /// Check if buffer is empty.
    pub fn is_buffer_empty(&self) -> (b: bool)
        ensures
            b == (self@.buffer.len() == 0),
    {
        self.buffer.len() == 0
    }

    /// Clear the internal buffer and reset state.
    pub fn clear(&mut self)
        ensures
            final(self)@ == (ParserModel {
                buffer: Seq::empty(),
                state: ParserState::WaitingHeader,
                ..old(self)@
            }),
    {
        self.buffer = Vec::new();
        self.state = ParserState::WaitingHeader;
    }

    /// Try to parse frame header from buffer; consumes the header when it is complete and valid.
    fn try_parse_header(&mut self) -> (res: H3Result<Option<(FrameType, usize)>>)
        ensures
            final(self)@.state == old(self)@.state,
            final(self)@.max_frame_size == old(self)@.max_frame_size,
            final(self)@.max_buffer_size == old(self)@.max_buffer_size,
            final(self)@.stats == old(self)@.stats,
            match spec_header_step(old(self)@.buffer, old(self)@.max_frame_size) {
                HeaderStep::NeedMore => res matches Ok(None) && final(self)@.buffer == old(
                    self,
                )@.buffer,
                HeaderStep::UnknownType { code } => error_is_outcome(
                    res->Err_0,
                    ParseOutcome::UnknownType(code),
                ) && res is Err && final(self)@.buffer == old(self)@.buffer,
                HeaderStep::TooLarge { length } => error_is_outcome(
                    res->Err_0,
                    ParseOutcome::TooLarge { length, max: old(self)@.max_frame_size },
                ) && res is Err && final(self)@.buffer == old(self)@.buffer,
                HeaderStep::Header { frame_type, length, header_len } => res == Ok::<
                    Option<(FrameType, usize)>,
                    H3Error,
                >(Some((frame_type, length as usize))) && final(self)@.buffer == old(
                    self,
                )@.buffer.skip(header_len as int),
            },
    {
        if self.buffer.len() < 2 {
            return Ok(None);
        }
        let ghost buf = self.buffer@;
        assert(buf.subrange(0, buf.len() as int) =~= buf);
        let (frame_type_raw, p1) = match read_varint(self.buffer.as_slice(), 0) {
            Ok(r) => r,
            Err(_) => {
                return Ok(None);
            },
        };
        let frame_type = match FrameType::try_from(frame_type_raw) {
            Ok(t) => t,
            Err(e) => {
                return Err(H3Error::Parse(e));
            },
        };
        assert(buf.subrange(p1 as int, buf.len() as int) =~= buf.skip(p1 as int));
        let (length, p2) = match read_varint(self.buffer.as_slice(), p1) {
            Ok(r) => r,
            Err(_) => {
                return Ok(None);
            },
        };
        if length > self.max_frame_size as u64 {
            return Err(
                H3Error::Parse(
                    ParseError::FrameTooLarge { size: length as usize, max: self.max_frame_size },
                ),
            );
        }
        let rest = self.buffer.split_off(p2);
        self.buffer = rest;
        Ok(Some((frame_type, length as usize)))
    }

    /// Take one parse step on the buffered bytes.
    fn parse_buffered(&mut self) -> (res: H3Result<Option<H3Frame>>)
        requires
            stats_room(old(self)@, 0),
        ensures
            final(self)@ == spec_parse_buffered(old(self)@).0,
            result_is_outcome(res, spec_parse_buffered(old(self)@).1),
    {
        let ghost q = self@;
        let mut st = self.state;
        if let ParserState::WaitingHeader = st {
            match self.try_parse_header() {
                Ok(Some((frame_type, length))) => {
                    st = ParserState::ReadingPayload { frame_type, length };
                    self.state = st;
                },
                Ok(None) => {
                    return Ok(None);
                },
                Err(e) => {
                    self.stats.parse_errors = self.stats.parse_errors + 1;
                    return Err(e);
                },
            }
        }
        let ghost q2 = self@;
        match st {
            ParserState::ReadingPayload { frame_type, length } => {
                if self.buffer.len() < length {
                    return Ok(None);
                }
                let ghost b = self.buffer@;
                let mut payload = self.buffer.split_off(length);
                std::mem::swap(&mut self.buffer, &mut payload);
                assert(payload@ =~= b.take(length as int));
                assert(self.buffer@ =~= b.skip(length as int));
                self.state = ParserState::WaitingHeader;
                match parse_frame_payload(frame_type, payload) {
                    Ok(frame) => {
                        self.stats.frames_parsed = self.stats.frames_parsed + 1;
                        Ok(Some(frame))
                    },
                    Err(e) => {
                        self.stats.parse_errors = self.stats.parse_errors + 1;
                        Err(e)
                    },
                }
            },
            ParserState::WaitingHeader => Ok(None),
        }
    }

    /// Parse frames from the given data.
    /// Returns Ok(Some(frame)) if a complete frame was parsed,
    /// Ok(None) if more data is needed, or Err if parsing failed.
    pub fn parse_frame(&mut self, data: &[u8]) -> (res: H3Result<Option<H3Frame>>)
        requires
            stats_room(old(self)@, data@.len()),
        ensures
            final(self)@ == spec_parse_frame(old(self)@, data@).0,
            result_is_outcome(res, spec_parse_frame(old(self)@, data@).1),
    {
        if self.buffer.len() > self.max_buffer_size || data.len() > self.max_buffer_size
            - self.buffer.len() {
            self.stats.buffer_overflows = self.stats.buffer_overflows + 1;
            return Err(H3Error::Parse(ParseError::BufferOverflow));
        }
        append_bytes(&mut self.buffer, data);
        self.stats.bytes_processed = self.stats.bytes_processed + data.len() as u64;
        self.parse_buffered()
    }

    /// Parse multiple frames from the buffer.
    /// Returns a vector of successfully parsed frames.
    pub fn parse_frames(&mut self, data: &[u8]) -> (res: H3Result<Vec<H3Frame>>)
        requires
            stats_room(old(self)@, data@.len()),
            old(self)@.stats.frames_parsed + parse_measure(old(self)@) + 2 * data@.len() < u64::MAX,
        ensures
            old(self)@.buffer.len() + data@.len() > old(self)@.max_buffer_size ==> {
                &&& res matches Err(H3Error::Parse(ParseError::BufferOverflow))
                &&& final(self)@ == spec_parse_frame(old(self)@, data@).0
            },
            old(self)@.buffer.len() + data@.len() <= old(self)@.max_buffer_size ==> {
                let q = ParserModel {
                    buffer: old(self)@.buffer + data@,
                    stats: ParserStats {
                        bytes_processed: (old(self)@.stats.bytes_processed + data@.len()) as u64,
                        ..old(self)@.stats
                    },
                    ..old(self)@
                };
                let (r, out) = spec_parse_all(q, Seq::empty());
                &&& final(self)@ == r
                &&& match out {
                    Ok(frames) => res matches Ok(v) && frames_view(v@) == frames,
                    Err(o) => res matches Err(e) && error_is_outcome(e, o),
                }
            },
    {
        if self.buffer.len() > self.max_buffer_size || data.len() > self.max_buffer_size
            - self.buffer.len() {
            self.stats.buffer_overflows = self.stats.buffer_overflows + 1;
            return Err(H3Error::Parse(ParseError::BufferOverflow));
        }
        append_bytes(&mut self.buffer, data);
        self.stats.bytes_processed = self.stats.bytes_processed + data.len() as u64;
        let ghost q0 = self@;
        let mut frames: Vec<H3Frame> = Vec::new();
        assert(frames_view(frames@) =~= Seq::<FrameModel>::empty());
        loop
            invariant
                old(self)@.buffer.len() + data@.len() <= old(self)@.max_buffer_size,
                q0 == (ParserModel {
                    buffer: old(self)@.buffer + data@,
                    stats: ParserStats {
                        bytes_processed: (old(self)@.stats.bytes_processed + data@.len()) as u64,
                        ..old(self)@.stats
                    },
                    ..old(self)@
                }),
                spec_parse_all(q0, Seq::empty()) == spec_parse_all(self@, frames_view(frames@)),
                self@.stats.parse_errors == q0.stats.parse_errors,
                self@.stats.parse_errors < u64::MAX,
                self@.stats.buffer_overflows < u64::MAX,
                self@.stats.frames_parsed + parse_measure(self@) < u64::MAX,
            decreases parse_measure(self@),
        {
            let ghost before = self@;
            let ghost acc = frames_view(frames@);
            match self.parse_buffered() {
                Ok(Some(frame)) => {
                    proof {
                        lemma_parse_progress(before);
                    }
                    let ghost fm = frame@;
                    frames.push(frame);
                    assert(frames_view(frames@) =~= acc.push(fm));
                },
                Ok(None) => {
                    return Ok(frames);
                },
                Err(e) => {
                    return Err(e);
                },
            }
        }
    }

    /// Check if a complete frame is available in the buffer.
    pub fn has_complete_frame(&self) -> (b: bool)
        ensures
            b == spec_has_complete_frame(self@.buffer),
    {
        if self.buffer.len() < 2 {
            return false;
        }
        let ghost buf = self.buffer@;
        assert(buf.subrange(0, buf.len() as int) =~= buf);
        match read_varint(self.buffer.as_slice(), 0) {
            Ok((_, p1)) => {
                assert(buf.subrange(p1 as int, buf.len() as int) =~= buf.skip(p1 as int));
                match read_varint(self.buffer.as_slice(), p1) {
                    Ok((length, p2)) => {
                        proof {
                            lemma_varint_decode_bound(buf.skip(p1 as int));
                        }
                        (self.buffer.len() as u64) >= (p2 as u64) + length
                    },
                    Err(_) => false,
                }
            },
            Err(_) => false,
        }
    }

    /// Encode a frame to bytes.
    pub fn encode_frame(&self, frame: &H3Frame) -> (res: H3Result<Vec<u8>>)
        ensures
            res matches Ok(bytes) && bytes@ == spec_encode_frame(frame@),
    {
        let mut buf: Vec<u8> = Vec::new();
        write_varint(&mut buf, frame.frame_type().to_u64());
        let payload = encode_frame_payload(frame);
        write_varint(&mut buf, payload.len() as u64);
        append_bytes(&mut buf, payload.as_slice());
        assert(buf@ =~= spec_encode_frame(frame@));
        Ok(buf)
    }
}

impl Default for FrameParser {
    fn default() -> (p: Self)
        ensures
            p@ == fresh_parser(16384, 65536),
    {
        Self::new()
    }
}

/// Trait for frame serialization.
pub trait FrameSerialize {
    /// Serialize the frame to bytes.
    fn serialize(&self) -> H3Result<Vec<u8>>;

    /// Get the serialized size of the frame.
    fn serialized_size(&self) -> usize;
}

/// Trait for frame deserialization.
pub trait FrameDeserialize: Sized {
    /// Deserialize a frame from bytes.
    fn deserialize(frame_type: FrameType, data: &[u8]) -> H3Result<Self>;
}

impl FrameSerialize for H3Frame {
    fn serialize(&self) -> (res: H3Result<Vec<u8>>)
        ensures
            res matches Ok(bytes) && bytes@ == spec_encode_frame(self@),
    {
        let parser = FrameParser::new();
        parser.encode_frame(self)
    }

    /// Frame type (varint) + length (varint) + payload size estimate.
    fn serialized_size(&self) -> (n: usize)
        ensures
            model_payload_size(self@) + 16 <= usize::MAX ==> n == spec_varint_size(
                spec_frame_type_code(model_frame_type(self@)),
            ) + spec_varint_size(model_payload_size(self@) as u64) + model_payload_size(self@),
    {
        let payload_size = match self {
            H3Frame::Headers { headers, .. } => match headers.total_bytes() {
                Some(n) => n,
                None => usize::MAX,
            },
            H3Frame::PushPromise { headers, .. } => match headers.total_bytes() {
                Some(n) => if n <= usize::MAX - 8 { 8 + n } else { usize::MAX },
                None => usize::MAX,
            },
            H3Frame::Settings { settings } => if settings.len() <= usize::MAX / 16 {
                settings.len() * 16
            } else {
                usize::MAX
            },
            H3Frame::Data { data, .. } => data.len(),
            _ => 8,
        };
        if payload_size > usize::MAX - 16 {
            return usize::MAX;
        }
        varint_size(self.frame_type().to_u64()) + varint_size(payload_size as u64) + payload_size
    }
}

impl FrameDeserialize for H3Frame {
    fn deserialize(frame_type: FrameType, data: &[u8]) -> (res: H3Result<H3Frame>)
        ensures
            match spec_parse_payload(frame_type, data@) {
                Some(f) => res matches Ok(fr) && fr@ == f,
                None => res matches Err(H3Error::Parse(ParseError::Incomplete)),
            },
    {
        parse_frame_payload(frame_type, vstd::slice::slice_to_vec(data))
    }
}

} // verus!

verus! {

/// The frame that parsing the encoding of `f` yields: stream identifiers and end-of-stream
/// flags are not carried in payloads, header blocks are written and read empty.
pub open spec fn parsed_form(f: FrameModel) -> FrameModel {
    match f {
        FrameModel::Data { data, .. } => FrameModel::Data { stream_id: 0, data, end_stream: false },
        FrameModel::Headers { .. } => FrameModel::Headers {
            stream_id: 0,
            headers: Seq::empty(),
            end_stream: false,
            priority: None,
        },
        FrameModel::PushPromise { promised_stream_id, .. } => FrameModel::PushPromise {
            stream_id: 0,
            promised_stream_id,
            headers: Seq::empty(),
        },
        _ => f,
    }
}

/// Every value of the settings fits in a varint.
pub open spec fn settings_values_fit(s: Seq<(SettingId, u64)>) -> bool {
    forall|i: int| 0 <= i < s.len() ==> s[i].1 <= VARINT_MAX
}

/// The frame's encoded fields fit in varints, and its settings name each identifier once.
pub open spec fn frame_encodable(f: FrameModel) -> bool {
    match f {
        FrameModel::Data { data, .. } => data.len() <= VARINT_MAX,
        FrameModel::Headers { .. } => true,
        FrameModel::CancelPush { push_id } => push_id <= VARINT_MAX,
        FrameModel::Settings { settings } => settings_unique(settings) && settings_values_fit(
            settings,
        ) && settings_bytes(settings).len() <= VARINT_MAX,
        FrameModel::PushPromise { promised_stream_id, .. } => promised_stream_id <= VARINT_MAX,
        FrameModel::Goaway { stream_id } => stream_id <= VARINT_MAX,
        FrameModel::MaxPushId { push_id } => push_id <= VARINT_MAX,
    }
}

proof fn lemma_settings_bytes_front(s: Seq<(SettingId, u64)>)
    requires
        s.len() > 0,
    ensures
        settings_bytes(s) == spec_varint_encode(spec_setting_code(s[0].0)) + spec_varint_encode(
            s[0].1,
        ) + settings_bytes(s.drop_first()),
    decreases s.len(),
{
    if s.len() > 1 {
        lemma_settings_bytes_front(s.drop_last());
        assert(s.drop_last().drop_first() =~= s.drop_first().drop_last());
        assert(s.drop_last()[0] == s[0]);
        assert(s.drop_first().last() == s.last());
        assert(settings_bytes(s) =~= spec_varint_encode(spec_setting_code(s[0].0))
            + spec_varint_encode(s[0].1) + settings_bytes(s.drop_first()));
    } else {
        assert(s.drop_last() =~= Seq::<(SettingId, u64)>::empty());
        assert(s.drop_first() =~= Seq::<(SettingId, u64)>::empty());
        assert(settings_bytes(s) =~= spec_varint_encode(spec_setting_code(s[0].0))
            + spec_varint_encode(s[0].1) + settings_bytes(s.drop_first()));
    }
}

proof fn lemma_parse_settings_from(s: Seq<(SettingId, u64)>, k: int)
    requires
        0 <= k <= s.len(),
        settings_unique(s),
        settings_values_fit(s),
    ensures
        spec_parse_settings(settings_bytes(s.skip(k)), s.take(k)) == Some(s),
    decreases s.len() - k,
{
    if k == s.len() {
        assert(s.skip(k) =~= Seq::<(SettingId, u64)>::empty());
        assert(s.take(k) =~= s);
    } else {
        let t = s.skip(k);
        lemma_settings_bytes_front(t);
        assert(t[0] == s[k]);
        assert(t.drop_first() =~= s.skip(k + 1));
        let (id, v) = s[k];
        let c = spec_setting_code(id);
        let rest = settings_bytes(s.skip(k + 1));
        let bytes = settings_bytes(t);
        assert(bytes == spec_varint_encode(c) + (spec_varint_encode(v) + rest));
        assert(c <= VARINT_MAX);
        lemma_varint_roundtrip(c, spec_varint_encode(v) + rest);
        let n1 = spec_varint_size(c);
        assert(bytes.skip(n1 as int) =~= spec_varint_encode(v) + rest);
        lemma_varint_roundtrip(v, rest);
        let n2 = spec_varint_size(v);
        assert(bytes.skip((n1 + n2) as int) =~= rest);
        assert(spec_setting_of(c) == Some(id));
        assert forall|j: int| 0 <= j < k implies s.take(k)[j].0 != id by {
            assert(s.take(k)[j] == s[j]);
        }
        lemma_upsert_at(s.take(k), id, v, k);
        assert(s.take(k).push((id, v)) =~= s.take(k + 1));
        lemma_parse_settings_from(s, k + 1);
    }
}

/// Parsing the encoding of settings that name each identifier once gives them back, in order.
pub proof fn lemma_settings_roundtrip(s: Seq<(SettingId, u64)>)
    requires
        settings_unique(s),
        settings_values_fit(s),
    ensures
        spec_parse_settings(settings_bytes(s), Seq::empty()) == Some(s),
{
    lemma_parse_settings_from(s, 0);
    assert(s.skip(0) =~= s);
    assert(s.take(0) =~= Seq::<(SettingId, u64)>::empty());
}

/// Parsing the payload that a frame is encoded with gives back the frame in its parsed form.
pub proof fn lemma_payload_roundtrip(f: FrameModel)
    requires
        frame_encodable(f),
    ensures
        spec_parse_payload(model_frame_type(f), spec_encode_payload(f)) == Some(parsed_form(f)),
{
    match f {
        FrameModel::CancelPush { push_id } => {
            lemma_varint_roundtrip(push_id, Seq::empty());
            assert(spec_varint_encode(push_id) + Seq::<u8>::empty() =~= spec_varint_encode(push_id));
        },
        FrameModel::PushPromise { promised_stream_id, .. } => {
            lemma_varint_roundtrip(promised_stream_id, Seq::empty());
            assert(spec_varint_encode(promised_stream_id) + Seq::<u8>::empty() =~= spec_varint_encode(
                promised_stream_id,
            ));
        },
        FrameModel::Goaway { stream_id } => {
            lemma_varint_roundtrip(stream_id, Seq::empty());
            assert(spec_varint_encode(stream_id) + Seq::<u8>::empty() =~= spec_varint_encode(stream_id));
        },
        FrameModel::MaxPushId { push_id } => {
            lemma_varint_roundtrip(push_id, Seq::empty());
            assert(spec_varint_encode(push_id) + Seq::<u8>::empty() =~= spec_varint_encode(push_id));
        },
        FrameModel::Settings { settings } => {
            lemma_settings_roundtrip(settings);
        },
        _ => {},
    }
}

/// A parser that waits for a header, with an empty buffer and room in its limits, parses the
/// encoding of a frame (as `encode_frame` writes it) in one call into the frame's parsed form,
/// and is left waiting for a header with an empty buffer.
pub proof fn lemma_frame_roundtrip(p: ParserModel, f: FrameModel)
    requires
        p.buffer.len() == 0,
        p.state == ParserState::WaitingHeader,
        frame_encodable(f),
        spec_encode_payload(f).len() <= p.max_frame_size,
        spec_encode_frame(f).len() <= p.max_buffer_size,
    ensures
        spec_parse_frame(p, spec_encode_frame(f)).1 == ParseOutcome::Frame(parsed_form(f)),
        spec_parse_frame(p, spec_encode_frame(f)).0.buffer == Seq::<u8>::empty(),
        spec_parse_frame(p, spec_encode_frame(f)).0.state == ParserState::WaitingHeader,
{
    let t = model_frame_type(f);
    let code = spec_frame_type_code(t);
    let payload = spec_encode_payload(f);
    let len = payload.len() as u64;
    let bytes = spec_encode_frame(f);
    assert(payload.len() <= VARINT_MAX) by {
        match f {
            FrameModel::Data { .. } => {},
            FrameModel::Settings { .. } => {},
            FrameModel::Headers { .. } => {},
            _ => {
                lemma_varint_size_matches_all(f);
            },
        }
    }
    assert(p.buffer + bytes =~= bytes);
    assert(bytes == spec_varint_encode(code) + (spec_varint_encode(len) + payload));
    lemma_varint_roundtrip(code, spec_varint_encode(len) + payload);
    let n1 = spec_varint_size(code);
    assert(bytes.skip(n1 as int) =~= spec_varint_encode(len) + payload);
    lemma_varint_roundtrip(len, payload);
    let n2 = spec_varint_size(len);
    assert(bytes.skip((n1 + n2) as int) =~= payload);
    lemma_frame_type_code_roundtrip(t, code);
    assert(payload.skip(payload.len() as int) =~= Seq::<u8>::empty());
    assert(payload.take(payload.len() as int) =~= payload);
    lemma_payload_roundtrip(f);
}

proof fn lemma_varint_size_matches_all(f: FrameModel)
    ensures
        spec_encode_payload(f).len() <= 8 || f is Data || f is Settings,
{
    match f {
        FrameModel::CancelPush { push_id } => {
            crate::protocol::varint::lemma_varint_size_matches(push_id);
        },
        FrameModel::PushPromise { promised_stream_id, .. } => {
            crate::protocol::varint::lemma_varint_size_matches(promised_stream_id);
        },
        FrameModel::Goaway { stream_id } => {
            crate::protocol::varint::lemma_varint_size_matches(stream_id);
        },
        FrameModel::MaxPushId { push_id } => {
            crate::protocol::varint::lemma_varint_size_matches(push_id);
        },
        _ => {},
    }
}

} // verus!
