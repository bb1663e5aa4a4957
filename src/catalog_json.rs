use vstd::prelude::*;

use crate::catalog::{SesameCatalog, SesameCatalogTrack, TrackType};
use crate::config::WrapperError;
use vstd::utf8::*;
use crate::json::{
    digits, is_digit, is_ws, lemma_digits_parse, lemma_quoted_parses, parse_str, parse_str_spec, parse_u64,
    parse_uint_spec, push_digits, push_quoted, quoted, skip_value, skip_value_spec, skip_ws,
    skip_ws_spec,
};

verus! {

pub open spec fn key_type() -> Seq<u8> {
    seq![0x74u8, 0x79, 0x70, 0x65]
}

pub open spec fn key_track_name() -> Seq<u8> {
    seq![0x74u8, 0x72, 0x61, 0x63, 0x6b, 0x4e, 0x61, 0x6d, 0x65]
}

pub open spec fn key_priority() -> Seq<u8> {
    seq![0x70u8, 0x72, 0x69, 0x6f, 0x72, 0x69, 0x74, 0x79]
}

pub open spec fn key_tracks() -> Seq<u8> {
    seq![0x74u8, 0x72, 0x61, 0x63, 0x6b, 0x73]
}

/// The name of a track kind, as bytes.
pub open spec fn kind_bytes(t: TrackType) -> Seq<u8> {
    match t {
        TrackType::Video => seq![0x76u8, 0x69, 0x64, 0x65, 0x6f],
        TrackType::Audio => seq![0x61u8, 0x75, 0x64, 0x69, 0x6f],
        TrackType::Data => seq![0x64u8, 0x61, 0x74, 0x61],
    }
}

/// The track kind that a name stands for.
pub open spec fn kind_of(b: Seq<u8>) -> Option<TrackType> {
    if b == kind_bytes(TrackType::Video) {
        Some(TrackType::Video)
    } else if b == kind_bytes(TrackType::Audio) {
        Some(TrackType::Audio)
    } else if b == kind_bytes(TrackType::Data) {
        Some(TrackType::Data)
    } else {
        None
    }
}

fn bytes_eq(a: &[u8], b: &[u8]) -> (r: bool)
    ensures
        r == (a@ == b@),
{
    if a.len() != b.len() {
        return false;
    }
    let mut i: usize = 0;
    while i < a.len()
        invariant
            a@.len() == b@.len(),
            i <= a@.len(),
            forall|k: int| 0 <= k < i ==> a@[k] == b@[k],
        decreases a@.len() - i,
    {
        if a[i] != b[i] {
            return false;
        }
        i = i + 1;
    }
    assert(a@ =~= b@);
    true
}

pub fn kind_bytes_exec(t: TrackType) -> (r: Vec<u8>)
    ensures
        r@ == kind_bytes(t),
{
    let r = match t {
        TrackType::Video => vec![0x76u8, 0x69, 0x64, 0x65, 0x6f],
        TrackType::Audio => vec![0x61u8, 0x75, 0x64, 0x69, 0x6f],
        TrackType::Data => vec![0x64u8, 0x61, 0x74, 0x61],
    };
    assert(r@ =~= kind_bytes(t));
    r
}

fn kind_of_exec(b: &[u8]) -> (r: Option<TrackType>)
    ensures
        r == kind_of(b@),
{
    let v = kind_bytes_exec(TrackType::Video);
    let a = kind_bytes_exec(TrackType::Audio);
    let d = kind_bytes_exec(TrackType::Data);
    if bytes_eq(b, v.as_slice()) {
        Some(TrackType::Video)
    } else if bytes_eq(b, a.as_slice()) {
        Some(TrackType::Audio)
    } else if bytes_eq(b, d.as_slice()) {
        Some(TrackType::Data)
    } else {
        None
    }
}


/// The key of an object member at `i` (after white space), and the position
/// of its value (after the colon and white space).
pub open spec fn member_key(buf: Seq<u8>, i: int) -> Option<(Seq<u8>, int)> {
    let k0 = skip_ws_spec(buf, i);
    match parse_str_spec(buf, k0) {
        Some((key, k1)) => {
            let k2 = skip_ws_spec(buf, k1);
            if 0 <= k2 < buf.len() && buf[k2] == 0x3A {
                Some((key, skip_ws_spec(buf, k2 + 1)))
            } else {
                None
            }
        },
        None => None,
    }
}

/// After a member or an item ending at `e`: whether a comma follows (more
/// to come) or the closing byte `close`, and the position after it.
pub open spec fn separator(buf: Seq<u8>, e: int, close: u8) -> Option<(bool, int)> {
    let k = skip_ws_spec(buf, e);
    if 0 <= k < buf.len() && buf[k] == 0x2C {
        Some((true, k + 1))
    } else if 0 <= k < buf.len() && buf[k] == close {
        Some((false, k + 1))
    } else {
        None
    }
}

proof fn lemma_ws_bounds(buf: Seq<u8>, i: int)
    ensures
        0 <= i <= buf.len() ==> i <= skip_ws_spec(buf, i) <= buf.len(),
        i < 0 || i > buf.len() ==> skip_ws_spec(buf, i) == i,
    decreases buf.len() - i,
{
    if 0 <= i < buf.len() && is_ws(buf[i]) {
        lemma_ws_bounds(buf, i + 1);
    }
}

proof fn lemma_str_bounds(buf: Seq<u8>, i: int)
    ensures
        parse_str_spec(buf, i) matches Some((_, e)) ==> i < e <= buf.len(),
{
    crate::json::lemma_parse_str_end(buf, i);
}

proof fn lemma_member_key_bounds(buf: Seq<u8>, i: int)
    requires
        0 <= i <= buf.len(),
    ensures
        member_key(buf, i) matches Some((_, j)) ==> i < j <= buf.len(),
{
    lemma_ws_bounds(buf, i);
    let k0 = skip_ws_spec(buf, i);
    lemma_str_bounds(buf, k0);
    if let Some((key, k1)) = parse_str_spec(buf, k0) {
        lemma_ws_bounds(buf, k1);
        let k2 = skip_ws_spec(buf, k1);
        lemma_ws_bounds(buf, k2 + 1);
    }
}

fn member_key_exec(buf: &[u8], i: usize) -> (r: Option<(Vec<u8>, usize)>)
    requires
        i <= buf@.len(),
    ensures
        match member_key(buf@, i as int) {
            Some((k, j)) => r matches Some((kv, jj)) && kv@ == k && jj == j,
            None => r is None,
        },
        r matches Some((_, j)) ==> i < j <= buf@.len(),
        r is None ==> member_key(buf@, i as int) is None,
{
    proof {
        lemma_member_key_bounds(buf@, i as int);
        lemma_str_bounds(buf@, skip_ws_spec(buf@, i as int));
    }
    let k0 = skip_ws(buf, i);
    match parse_str(buf, k0) {
        Some((key, k1)) => {
            proof {
                lemma_ws_bounds(buf@, k1 as int);
            }
            let k2 = skip_ws(buf, k1);
            if k2 < buf.len() && buf[k2] == 0x3A {
                let j = skip_ws(buf, k2 + 1);
                Some((key, j))
            } else {
                None
            }
        },
        None => None,
    }
}

fn separator_exec(buf: &[u8], e: usize, close: u8) -> (r: Option<(bool, usize)>)
    requires
        e <= buf@.len(),
    ensures
        r == match separator(buf@, e as int, close) {
            Some((m, k)) => Some((m, k as usize)),
            None => None::<(bool, usize)>,
        },
        r matches Some((_, k)) ==> e < k <= buf@.len(),
{
    let k = skip_ws(buf, e);
    if k < buf.len() && buf[k] == 0x2C {
        Some((true, k + 1))
    } else if k < buf.len() && buf[k] == close {
        Some((false, k + 1))
    } else {
        None
    }
}

/// The fields of a flat track record read so far.
pub struct TrackFields {
    pub kind: Option<TrackType>,
    pub name: Option<Vec<u8>>,
    pub priority: Option<u32>,
}

pub type FieldsView = (Option<TrackType>, Option<Seq<u8>>, Option<u32>);

impl TrackFields {
    pub open spec fn view(&self) -> FieldsView {
        (self.kind, match self.name { Some(n) => Some(n@), None => None }, self.priority)
    }
}

/// Reads the value of member `key` of a track record at `j`.
pub open spec fn track_value(buf: Seq<u8>, key: Seq<u8>, j: int, acc: FieldsView) -> Option<(FieldsView, int)> {
    if key == key_type() {
        match parse_str_spec(buf, j) {
            Some((v, e)) => match kind_of(v) {
                Some(k) => Some(((Some(k), acc.1, acc.2), e)),
                None => None,
            },
            None => None,
        }
    } else if key == key_track_name() {
        match parse_str_spec(buf, j) {
            Some((v, e)) => Some(((acc.0, Some(v), acc.2), e)),
            None => None,
        }
    } else if key == key_priority() {
        match parse_uint_spec(buf, j) {
            Some((v, e)) => if v <= u32::MAX { Some(((acc.0, acc.1, Some(v as u32)), e)) } else { None },
            None => None,
        }
    } else {
        match skip_value_spec(buf, j) {
            Some(e) => Some((acc, e)),
            None => None,
        }
    }
}

/// Reads the members of a track record from `i`, just after `{` or a comma.
pub open spec fn track_members(buf: Seq<u8>, i: int, acc: FieldsView) -> Option<(FieldsView, int)>
    decreases buf.len() - i,
{
    if i < 0 || i > buf.len() {
        None
    } else {
        match member_key(buf, i) {
            Some((key, j)) => match track_value(buf, key, j, acc) {
                Some((acc2, e)) => match separator(buf, e, 0x7D) {
                    Some((more, k)) => if !more {
                        Some((acc2, k))
                    } else if k > i {
                        track_members(buf, k, acc2)
                    } else {
                        None
                    },
                    None => None,
                },
                None => None,
            },
            None => None,
        }
    }
}

/// Reads a flat track record at `i`: its kind, name bytes and priority,
/// all three required.
pub open spec fn parse_track_spec(buf: Seq<u8>, i: int) -> Option<((TrackType, Seq<u8>, u32), int)> {
    let k = skip_ws_spec(buf, i);
    if 0 <= k < buf.len() && buf[k] == 0x7B {
        match track_members(buf, k + 1, (None, None, None)) {
            Some((acc, e)) => if acc.0 is Some && acc.1 is Some && acc.2 is Some {
                Some(((acc.0->0, acc.1->0, acc.2->0), e))
            } else {
                None
            },
            None => None,
        }
    } else {
        None
    }
}

fn track_value_exec(buf: &[u8], key: &[u8], j: usize, acc: TrackFields) -> (r: Option<(TrackFields, usize)>)
    requires
        j <= buf@.len(),
    ensures
        match track_value(buf@, key@, j as int, acc.view()) {
            Some((a, e)) => r matches Some((ra, re)) && ra.view() == a && re == e,
            None => r is None,
        },
        r matches Some((_, e)) ==> j < e <= buf@.len(),
        r is None ==> track_value(buf@, key@, j as int, acc.view()) is None,
{
    let kt = vec![0x74u8, 0x79, 0x70, 0x65];
    let kn = vec![0x74u8, 0x72, 0x61, 0x63, 0x6b, 0x4e, 0x61, 0x6d, 0x65];
    let kp = vec![0x70u8, 0x72, 0x69, 0x6f, 0x72, 0x69, 0x74, 0x79];
    assert(kt@ =~= key_type());
    assert(kn@ =~= key_track_name());
    assert(kp@ =~= key_priority());
    proof {
        lemma_str_bounds(buf@, j as int);
    }
    if bytes_eq(key, kt.as_slice()) {
        match parse_str(buf, j) {
            Some((v, e)) => match kind_of_exec(v.as_slice()) {
                Some(k) => Some((TrackFields { kind: Some(k), name: acc.name, priority: acc.priority }, e)),
                None => None,
            },
            None => None,
        }
    } else if bytes_eq(key, kn.as_slice()) {
        match parse_str(buf, j) {
            Some((v, e)) => Some((TrackFields { kind: acc.kind, name: Some(v), priority: acc.priority }, e)),
            None => None,
        }
    } else if bytes_eq(key, kp.as_slice()) {
        match parse_u64(buf, j) {
            Some((v, e)) => {
                proof {
                    crate::json::lemma_parse_uint_end(buf@, j as int);
                }
                if v <= u32::MAX as u64 {
                    Some((TrackFields { kind: acc.kind, name: acc.name, priority: Some(v as u32) }, e))
                } else {
                    None
                }
            },
            None => None,
        }
    } else {
        match skip_value(buf, j) {
            Some(e) => Some((acc, e)),
            None => None,
        }
    }
}

/// Reads a flat track record at `i`.
fn parse_track(buf: &[u8], i: usize) -> (r: Option<(TrackType, Vec<u8>, u32, usize)>)
    requires
        i <= buf@.len(),
    ensures
        match parse_track_spec(buf@, i as int) {
            Some((t, e)) => r matches Some((k, n, p, re)) && k == t.0 && n@ == t.1 && p == t.2 && re == e,
            None => r is None,
        },
        r matches Some((_, _, _, e)) ==> i < e <= buf@.len(),
{
    let k = skip_ws(buf, i);
    if !(k < buf.len() && buf[k] == 0x7B) {
        return None;
    }
    let mut acc = TrackFields { kind: None, name: None, priority: None };
    let mut pos = k + 1;
    while pos <= buf.len()
        invariant
            k + 1 <= pos <= buf@.len(),
            k == skip_ws_spec(buf@, i as int),
            i <= k,
            k < buf@.len() && buf@[k as int] == 0x7B,
            track_members(buf@, pos as int, acc.view()) == track_members(buf@, k + 1, (None, None, None)),
        decreases buf@.len() - pos,
    {
        let (key, j) = match member_key_exec(buf, pos) {
            Some(x) => x,
            None => {
                return None;
            },
        };
        let (acc2, e) = match track_value_exec(buf, key.as_slice(), j, acc) {
            Some(x) => x,
            None => {
                return None;
            },
        };
        let (more, next) = match separator_exec(buf, e, 0x7D) {
            Some(x) => x,
            None => {
                return None;
            },
        };
        if !more {
            return match (acc2.kind, acc2.name, acc2.priority) {
                (Some(kd), Some(n), Some(p)) => Some((kd, n, p, next)),
                _ => None,
            };
        }
        acc = acc2;
        pos = next;
    }
    None
}


/// A flat track record as read from a document: kind, name bytes, priority.
pub type TrackRecord = (TrackType, Seq<u8>, u32);

/// Reads track records from `i`, just after `[` or a comma.
pub open spec fn track_items(buf: Seq<u8>, i: int, acc: Seq<TrackRecord>) -> Option<(Seq<TrackRecord>, int)>
    decreases buf.len() - i,
{
    if i < 0 || i > buf.len() {
        None
    } else {
        match parse_track_spec(buf, i) {
            Some((t, e)) => match separator(buf, e, 0x5D) {
                Some((more, k)) => if !more {
                    Some((acc.push(t), k))
                } else if k > i {
                    track_items(buf, k, acc.push(t))
                } else {
                    None
                },
                None => None,
            },
            None => None,
        }
    }
}

/// Reads an array of track records at `i`.
pub open spec fn parse_track_list(buf: Seq<u8>, i: int) -> Option<(Seq<TrackRecord>, int)> {
    let k = skip_ws_spec(buf, i);
    if 0 <= k < buf.len() && buf[k] == 0x5B {
        let k1 = skip_ws_spec(buf, k + 1);
        if 0 <= k1 < buf.len() && buf[k1] == 0x5D {
            Some((Seq::empty(), k1 + 1))
        } else {
            track_items(buf, k + 1, Seq::empty())
        }
    } else {
        None
    }
}

/// Reads the value of member `key` of a flat document at `j`.
pub open spec fn doc_value(buf: Seq<u8>, key: Seq<u8>, j: int, acc: Option<Seq<TrackRecord>>) -> Option<(Option<Seq<TrackRecord>>, int)> {
    if key == key_tracks() {
        match parse_track_list(buf, j) {
            Some((ts, e)) => Some((Some(ts), e)),
            None => None,
        }
    } else {
        match skip_value_spec(buf, j) {
            Some(e) => Some((acc, e)),
            None => None,
        }
    }
}

/// Reads the members of a flat document from `i`, just after `{` or a comma.
pub open spec fn doc_members(buf: Seq<u8>, i: int, acc: Option<Seq<TrackRecord>>) -> Option<(Option<Seq<TrackRecord>>, int)>
    decreases buf.len() - i,
{
    if i < 0 || i > buf.len() {
        None
    } else {
        match member_key(buf, i) {
            Some((key, j)) => match doc_value(buf, key, j, acc) {
                Some((acc2, e)) => match separator(buf, e, 0x7D) {
                    Some((more, k)) => if !more {
                        Some((acc2, k))
                    } else if k > i {
                        doc_members(buf, k, acc2)
                    } else {
                        None
                    },
                    None => None,
                },
                None => None,
            },
            None => None,
        }
    }
}

/// Reads a flat catalog document: an object whose `tracks` member is an
/// array of track records; other members are ignored, and nothing but white
/// space may follow.
pub open spec fn parse_flat_spec(buf: Seq<u8>) -> Option<Seq<TrackRecord>> {
    let k = skip_ws_spec(buf, 0);
    if 0 <= k < buf.len() && buf[k] == 0x7B {
        match doc_members(buf, k + 1, None) {
            Some((Some(ts), e)) => if skip_ws_spec(buf, e) == buf.len() { Some(ts) } else { None },
            _ => None,
        }
    } else {
        None
    }
}

/// A track record as read in the library's own types.
pub struct ParsedTrack {
    pub kind: TrackType,
    pub name: Vec<u8>,
    pub priority: u32,
}

pub open spec fn parsed_view(ps: Seq<ParsedTrack>) -> Seq<TrackRecord> {
    ps.map_values(|p: ParsedTrack| (p.kind, p.name@, p.priority))
}

fn parse_track_list_exec(buf: &[u8], i: usize) -> (r: Option<(Vec<ParsedTrack>, usize)>)
    requires
        i <= buf@.len(),
    ensures
        match parse_track_list(buf@, i as int) {
            Some((ts, e)) => r matches Some((v, re)) && parsed_view(v@) == ts && re == e,
            None => r is None,
        },
        r matches Some((_, e)) ==> i < e <= buf@.len(),
{
    let k = skip_ws(buf, i);
    if !(k < buf.len() && buf[k] == 0x5B) {
        return None;
    }
    proof {
        lemma_ws_bounds(buf@, k + 1);
    }
    let k1 = skip_ws(buf, k + 1);
    if k1 < buf.len() && buf[k1] == 0x5D {
        let v: Vec<ParsedTrack> = Vec::new();
        assert(parsed_view(v@) =~= Seq::<TrackRecord>::empty());
        return Some((v, k1 + 1));
    }
    let mut acc: Vec<ParsedTrack> = Vec::new();
    let mut pos = k + 1;
    assert(parsed_view(acc@) =~= Seq::<TrackRecord>::empty());
    while pos <= buf.len()
        invariant
            k + 1 <= pos <= buf@.len(),
            i <= k,
            k == skip_ws_spec(buf@, i as int),
            k < buf@.len() && buf@[k as int] == 0x5B,
            skip_ws_spec(buf@, k + 1) == k1,
            !(k1 < buf@.len() && buf@[k1 as int] == 0x5D),
            track_items(buf@, pos as int, parsed_view(acc@)) == track_items(buf@, k + 1, Seq::empty()),
        decreases buf@.len() - pos,
    {
        let (kind, name, priority, e) = match parse_track(buf, pos) {
            Some(x) => x,
            None => {
                return None;
            },
        };
        let (more, next) = match separator_exec(buf, e, 0x5D) {
            Some(x) => x,
            None => {
                return None;
            },
        };
        let ghost before = parsed_view(acc@);
        acc.push(ParsedTrack { kind, name, priority });
        assert(parsed_view(acc@) =~= before.push((kind, acc@.last().name@, priority)));
        if !more {
            return Some((acc, next));
        }
        pos = next;
    }
    None
}

fn doc_value_exec(buf: &[u8], key: &[u8], j: usize, acc: Option<Vec<ParsedTrack>>) -> (r: Option<(Option<Vec<ParsedTrack>>, usize)>)
    requires
        j <= buf@.len(),
    ensures
        match doc_value(buf@, key@, j as int, match acc { Some(v) => Some(parsed_view(v@)), None => None }) {
            Some((a, e)) => r matches Some((ra, re)) && re == e && match ra {
                Some(v) => a == Some(parsed_view(v@)),
                None => a is None,
            },
            None => r is None,
        },
        r matches Some((_, e)) ==> j < e <= buf@.len(),
{
    let kt = vec![0x74u8, 0x72, 0x61, 0x63, 0x6b, 0x73];
    assert(kt@ =~= key_tracks());
    if bytes_eq(key, kt.as_slice()) {
        match parse_track_list_exec(buf, j) {
            Some((ts, e)) => Some((Some(ts), e)),
            None => None,
        }
    } else {
        match skip_value(buf, j) {
            Some(e) => Some((acc, e)),
            None => None,
        }
    }
}

/// Reads a flat catalog document.
pub fn parse_flat(buf: &[u8]) -> (r: Option<Vec<ParsedTrack>>)
    ensures
        match parse_flat_spec(buf@) {
            Some(ts) => r matches Some(v) && parsed_view(v@) == ts,
            None => r is None,
        },
{
    let k = skip_ws(buf, 0);
    if !(k < buf.len() && buf[k] == 0x7B) {
        return None;
    }
    let mut acc: Option<Vec<ParsedTrack>> = None;
    let mut pos = k + 1;
    while pos <= buf.len()
        invariant
            k + 1 <= pos <= buf@.len(),
            k == skip_ws_spec(buf@, 0),
            k < buf@.len() && buf@[k as int] == 0x7B,
            doc_members(buf@, pos as int, match acc { Some(v) => Some(parsed_view(v@)), None => None }) == doc_members(buf@, k + 1, None),
        decreases buf@.len() - pos,
    {
        let (key, j) = match member_key_exec(buf, pos) {
            Some(x) => x,
            None => {
                return None;
            },
        };
        let (acc2, e) = match doc_value_exec(buf, key.as_slice(), j, acc) {
            Some(x) => x,
            None => {
                return None;
            },
        };
        let (more, next) = match separator_exec(buf, e, 0x7D) {
            Some(x) => x,
            None => {
                return None;
            },
        };
        if !more {
            let end = skip_ws(buf, next);
            if end != buf.len() {
                return None;
            }
            return acc2;
        }
        acc = acc2;
        pos = next;
    }
    None
}


/// A track record as written: `{"type":..,"trackName":..,"priority":..}`.
pub open spec fn track_json(t: TrackRecord) -> Seq<u8> {
    seq![0x7Bu8] + quoted(key_type()) + seq![0x3Au8] + quoted(kind_bytes(t.0)) + seq![0x2Cu8]
        + quoted(key_track_name()) + seq![0x3Au8] + quoted(t.1) + seq![0x2Cu8]
        + quoted(key_priority()) + seq![0x3Au8] + digits(t.2 as nat) + seq![0x7Du8]
}

/// Track records as written, separated by commas.
pub open spec fn tracks_json(ts: Seq<TrackRecord>) -> Seq<u8>
    decreases ts.len(),
{
    if ts.len() == 0 {
        Seq::empty()
    } else if ts.len() == 1 {
        track_json(ts[0])
    } else {
        track_json(ts[0]) + seq![0x2Cu8] + tracks_json(ts.drop_first())
    }
}

/// A flat catalog document as written: `{"tracks":[..]}`.
pub open spec fn flat_json(ts: Seq<TrackRecord>) -> Seq<u8> {
    seq![0x7Bu8] + quoted(key_tracks()) + seq![0x3Au8, 0x5Bu8] + tracks_json(ts) + seq![0x5Du8, 0x7Du8]
}

/// Appends a track record.
pub fn write_track(out: &mut Vec<u8>, kind: TrackType, name: &[u8], priority: u32)
    ensures
        final(out)@ == old(out)@ + track_json((kind, name@, priority)),
{
    let kt = vec![0x74u8, 0x79, 0x70, 0x65];
    let kn = vec![0x74u8, 0x72, 0x61, 0x63, 0x6b, 0x4e, 0x61, 0x6d, 0x65];
    let kp = vec![0x70u8, 0x72, 0x69, 0x6f, 0x72, 0x69, 0x74, 0x79];
    assert(kt@ =~= key_type());
    assert(kn@ =~= key_track_name());
    assert(kp@ =~= key_priority());
    let kb = kind_bytes_exec(kind);
    out.push(0x7B);
    push_quoted(out, kt.as_slice());
    out.push(0x3A);
    push_quoted(out, kb.as_slice());
    out.push(0x2C);
    push_quoted(out, kn.as_slice());
    out.push(0x3A);
    push_quoted(out, name);
    out.push(0x2C);
    push_quoted(out, kp.as_slice());
    out.push(0x3A);
    push_digits(out, priority as u64);
    out.push(0x7D);
    assert(out@ =~= old(out)@ + track_json((kind, name@, priority)));
}

proof fn lemma_tracks_json_step(ts: Seq<TrackRecord>, t: TrackRecord)
    ensures
        tracks_json(ts.push(t)) == if ts.len() == 0 {
            track_json(t)
        } else {
            tracks_json(ts) + seq![0x2Cu8] + track_json(t)
        },
    decreases ts.len(),
{
    if ts.len() == 0 {
    } else if ts.len() == 1 {
        assert(ts.push(t).drop_first() =~= seq![t]);
        assert(tracks_json(seq![t]) == track_json(t));
    } else {
        assert(ts.push(t).drop_first() =~= ts.drop_first().push(t));
        lemma_tracks_json_step(ts.drop_first(), t);
        assert(tracks_json(ts.push(t)) =~= tracks_json(ts) + seq![0x2Cu8] + track_json(t));
    }
}


proof fn lemma_kind_of(k: TrackType)
    ensures
        kind_of(kind_bytes(k)) == Some(k),
{
    let v = kind_bytes(TrackType::Video);
    let a = kind_bytes(TrackType::Audio);
    let d = kind_bytes(TrackType::Data);
    assert(v[0] != a[0]);
    assert(v.len() != d.len());
    assert(a.len() != d.len());
}

/// `piece` stands at `o` in `w`, which stands at `i` in `buf`.
proof fn lemma_piece_at(buf: Seq<u8>, i: int, w: Seq<u8>, o: int, piece: Seq<u8>)
    requires
        0 <= i,
        i + w.len() <= buf.len(),
        buf.subrange(i, i + w.len()) == w,
        0 <= o,
        o + piece.len() <= w.len(),
        w.subrange(o, o + piece.len()) == piece,
    ensures
        buf.subrange(i + o, i + o + piece.len()) == piece,
        forall|k: int| 0 <= k < piece.len() ==> buf[i + o + k] == #[trigger] piece[k],
{
    assert forall|k: int| 0 <= k < piece.len() implies buf[i + o + k] == #[trigger] piece[k] by {
        assert(buf.subrange(i, i + w.len())[o + k] == w[o + k]);
        assert(w.subrange(o, o + piece.len())[k] == piece[k]);
    }
    assert(buf.subrange(i + o, i + o + piece.len()) =~= piece);
}

proof fn lemma_not_ws_at(buf: Seq<u8>, i: int)
    requires
        0 <= i < buf.len(),
        !is_ws(buf[i]),
    ensures
        skip_ws_spec(buf, i) == i,
{
}

/// The reading of a track record, step by step, from the facts about its
/// pieces.
proof fn lemma_track_steps(buf: Seq<u8>, c0: int, t: TrackRecord, c2: int, c4: int, c6: int, c8: int, c10: int, c12: int)
    requires
        0 <= c0 < c2 < c4 < c6 < c8 < c10 < c12 < buf.len(),
        buf[c0] == 0x7Bu8,
        parse_str_spec(buf, c0 + 1) == Some((key_type(), c2)),
        buf[c2] == 0x3Au8,
        parse_str_spec(buf, c2 + 1) == Some((kind_bytes(t.0), c4)),
        buf[c4] == 0x2Cu8,
        parse_str_spec(buf, c4 + 1) == Some((key_track_name(), c6)),
        buf[c6] == 0x3Au8,
        parse_str_spec(buf, c6 + 1) == Some((t.1, c8)),
        buf[c8] == 0x2Cu8,
        parse_str_spec(buf, c8 + 1) == Some((key_priority(), c10)),
        buf[c10] == 0x3Au8,
        parse_uint_spec(buf, c10 + 1) == Some((t.2 as nat, c12)),
        buf[c12] == 0x7Du8,
    ensures
        parse_track_spec(buf, c0) == Some((t, c12 + 1)),
{
    lemma_kind_of(t.0);
    assert(buf[c0 + 1] == 0x22u8);
    assert(buf[c2 + 1] == 0x22u8);
    assert(buf[c4 + 1] == 0x22u8);
    assert(buf[c6 + 1] == 0x22u8);
    assert(buf[c8 + 1] == 0x22u8);
    assert(is_digit(buf[c10 + 1])) by {
        crate::json::lemma_parse_uint_first_digit(buf, c10 + 1);
    }
    lemma_not_ws_at(buf, c0);
    lemma_not_ws_at(buf, c0 + 1);
    lemma_not_ws_at(buf, c2);
    lemma_not_ws_at(buf, c2 + 1);
    lemma_not_ws_at(buf, c4);
    lemma_not_ws_at(buf, c4 + 1);
    lemma_not_ws_at(buf, c6);
    lemma_not_ws_at(buf, c6 + 1);
    lemma_not_ws_at(buf, c8);
    lemma_not_ws_at(buf, c8 + 1);
    lemma_not_ws_at(buf, c10);
    lemma_not_ws_at(buf, c10 + 1);
    lemma_not_ws_at(buf, c12);
    assert(key_track_name() != key_type());
    assert(key_priority() != key_type());
    assert(key_priority() != key_track_name());
    assert(member_key(buf, c0 + 1) == Some((key_type(), c2 + 1)));
    let a1: FieldsView = (Some(t.0), None, None);
    assert(track_value(buf, key_type(), c2 + 1, (None, None, None)) == Some((a1, c4)));
    assert(separator(buf, c4, 0x7D) == Some((true, c4 + 1)));
    assert(member_key(buf, c4 + 1) == Some((key_track_name(), c6 + 1)));
    let a2: FieldsView = (Some(t.0), Some(t.1), None);
    assert(track_value(buf, key_track_name(), c6 + 1, a1) == Some((a2, c8)));
    assert(separator(buf, c8, 0x7D) == Some((true, c8 + 1)));
    assert(member_key(buf, c8 + 1) == Some((key_priority(), c10 + 1)));
    let a3: FieldsView = (Some(t.0), Some(t.1), Some(t.2));
    assert(track_value(buf, key_priority(), c10 + 1, a2) == Some((a3, c12)));
    assert(separator(buf, c12, 0x7D) == Some((false, c12 + 1)));
    assert(track_members(buf, c8 + 1, a2) == Some((a3, c12 + 1)));
    assert(track_members(buf, c4 + 1, a1) == Some((a3, c12 + 1)));
    assert(track_members(buf, c0 + 1, (None, None, None)) == Some((a3, c12 + 1)));
}

/// A track record as written reads back as the same record.
proof fn lemma_track_json_parses(buf: Seq<u8>, i: int, t: TrackRecord)
    requires
        0 <= i,
        i + track_json(t).len() <= buf.len(),
        buf.subrange(i, i + track_json(t).len()) == track_json(t),
    ensures
        parse_track_spec(buf, i) == Some((t, i + track_json(t).len())),
{
    let w = track_json(t);
    let k1 = quoted(key_type());
    let v1 = quoted(kind_bytes(t.0));
    let k2 = quoted(key_track_name());
    let v2 = quoted(t.1);
    let k3 = quoted(key_priority());
    let v3 = digits(t.2 as nat);
    let o1: int = 1;
    let o2 = o1 + k1.len();
    let o3 = o2 + 1;
    let o4 = o3 + v1.len();
    let o5 = o4 + 1;
    let o6 = o5 + k2.len();
    let o7 = o6 + 1;
    let o8 = o7 + v2.len();
    let o9 = o8 + 1;
    let o10 = o9 + k3.len();
    let o11 = o10 + 1;
    let o12 = o11 + v3.len();
    crate::json::lemma_digits_shape_pub(t.2 as nat);
    assert(w.len() == o12 + 1);
    assert(w[0] == 0x7Bu8);
    assert(w[o2] == 0x3Au8);
    assert(w[o4] == 0x2Cu8);
    assert(w[o6] == 0x3Au8);
    assert(w[o8] == 0x2Cu8);
    assert(w[o10] == 0x3Au8);
    assert(w[o12] == 0x7Du8);
    assert(w.subrange(o1, o2) =~= k1);
    assert(w.subrange(o3, o4) =~= v1);
    assert(w.subrange(o5, o6) =~= k2);
    assert(w.subrange(o7, o8) =~= v2);
    assert(w.subrange(o9, o10) =~= k3);
    assert(w.subrange(o11, o12) =~= v3);
    assert forall|k: int| 0 <= k < w.len() implies buf[i + k] == #[trigger] w[k] by {
        assert(buf.subrange(i, i + w.len())[k] == w[k]);
    }
    lemma_piece_at(buf, i, w, o1, k1);
    lemma_piece_at(buf, i, w, o3, v1);
    lemma_piece_at(buf, i, w, o5, k2);
    lemma_piece_at(buf, i, w, o7, v2);
    lemma_piece_at(buf, i, w, o9, k3);
    lemma_piece_at(buf, i, w, o11, v3);
    lemma_quoted_parses(buf, i + o1, key_type());
    lemma_quoted_parses(buf, i + o3, kind_bytes(t.0));
    lemma_quoted_parses(buf, i + o5, key_track_name());
    lemma_quoted_parses(buf, i + o7, t.1);
    lemma_quoted_parses(buf, i + o9, key_priority());
    assert(buf[i + o12] == w[o12]);
    lemma_digits_parse(buf, i + o11, t.2 as nat);
    assert(buf[i] == w[0]);
    assert(buf[i + o2] == w[o2]);
    assert(buf[i + o4] == w[o4]);
    assert(buf[i + o6] == w[o6]);
    assert(buf[i + o8] == w[o8]);
    assert(buf[i + o10] == w[o10]);
    lemma_track_steps(buf, i, t, i + o2, i + o4, i + o6, i + o8, i + o10, i + o12);
}


proof fn lemma_track_json_first(t: TrackRecord)
    ensures
        track_json(t).len() >= 1,
        track_json(t)[0] == 0x7Bu8,
{
}

/// Track records as written, followed by `]`, read back as the same records.
proof fn lemma_tracks_json_parses(buf: Seq<u8>, i: int, ts: Seq<TrackRecord>, acc: Seq<TrackRecord>)
    requires
        ts.len() >= 1,
        0 <= i,
        i + tracks_json(ts).len() < buf.len(),
        buf.subrange(i, i + tracks_json(ts).len()) == tracks_json(ts),
        buf[i + tracks_json(ts).len()] == 0x5Du8,
    ensures
        track_items(buf, i, acc) == Some((acc + ts, i + tracks_json(ts).len() + 1)),
    decreases ts.len(),
{
    let t = ts[0];
    let w = track_json(t);
    let tj = tracks_json(ts);
    assert(tj.subrange(0, w.len() as int) =~= w);
    lemma_piece_at(buf, i, tj, 0, w);
    assert(buf.subrange(i, i + w.len()) =~= w) by {
        assert forall|k: int| 0 <= k < w.len() implies buf.subrange(i, i + w.len())[k] == w[k] by {
            assert(buf[i + 0 + k] == w[k]);
        }
    }
    lemma_track_json_parses(buf, i, t);
    let e = i + w.len();
    if ts.len() == 1 {
        lemma_not_ws_at(buf, e);
        assert(separator(buf, e, 0x5D) == Some((false, e + 1)));
        assert(acc.push(t) =~= acc + ts);
    } else {
        let rest = ts.drop_first();
        let rj = tracks_json(rest);
        assert(tj =~= w + seq![0x2Cu8] + rj);
        assert(buf[e] == 0x2Cu8) by {
            assert(buf.subrange(i, i + tj.len())[w.len() as int] == tj[w.len() as int]);
        }
        lemma_not_ws_at(buf, e);
        assert(separator(buf, e, 0x5D) == Some((true, e + 1)));
        assert(buf.subrange(e + 1, e + 1 + rj.len()) =~= rj) by {
            assert forall|k: int| 0 <= k < rj.len() implies buf.subrange(e + 1, e + 1 + rj.len())[k] == rj[k] by {
                assert(buf.subrange(i, i + tj.len())[w.len() + 1 + k] == tj[w.len() + 1 + k]);
            }
        }
        lemma_tracks_json_parses(buf, e + 1, rest, acc.push(t));
        assert(acc.push(t) + rest =~= acc + ts);
    }
}

/// A flat catalog document as written reads back as the same records.
pub proof fn lemma_flat_json_parses(ts: Seq<TrackRecord>)
    ensures
        parse_flat_spec(flat_json(ts)) == Some(ts),
{
    let buf = flat_json(ts);
    let kq = quoted(key_tracks());
    let tj = tracks_json(ts);
    let p: int = 1 + kq.len() as int;
    assert(buf[0] == 0x7Bu8);
    lemma_not_ws_at(buf, 0);
    assert(buf.subrange(1, p) =~= kq);
    lemma_quoted_parses(buf, 1, key_tracks());
    assert(buf[1] == 0x22u8);
    lemma_not_ws_at(buf, 1);
    assert(buf[p] == 0x3Au8);
    lemma_not_ws_at(buf, p);
    assert(buf[p + 1] == 0x5Bu8);
    lemma_not_ws_at(buf, p + 1);
    assert(member_key(buf, 1) == Some((key_tracks(), p + 1)));
    let end: int = p + 2 + tj.len() as int;
    assert(buf.len() == end + 2);
    assert(buf[end] == 0x5Du8);
    assert(buf[end + 1] == 0x7Du8);
    lemma_not_ws_at(buf, end + 1);
    if ts.len() == 0 {
        assert(tj.len() == 0);
        lemma_not_ws_at(buf, p + 2);
        assert(parse_track_list(buf, p + 1) == Some((Seq::<TrackRecord>::empty(), end + 1)));
        assert(Seq::<TrackRecord>::empty() =~= ts);
    } else {
        lemma_track_json_first(ts[0]);
        assert(tj[0] == 0x7Bu8) by {
            if ts.len() == 1 {
            } else {
                assert(tj =~= track_json(ts[0]) + seq![0x2Cu8] + tracks_json(ts.drop_first()));
            }
        }
        assert(buf[p + 2] == tj[0]);
        lemma_not_ws_at(buf, p + 2);
        assert(buf.subrange(p + 2, p + 2 + tj.len()) =~= tj);
        lemma_tracks_json_parses(buf, p + 2, ts, Seq::empty());
        assert(Seq::<TrackRecord>::empty() + ts =~= ts);
        assert(parse_track_list(buf, p + 1) == Some((ts, end + 1)));
    }
    assert(doc_value(buf, key_tracks(), p + 1, None) == Some((Some(ts), end + 1)));
    assert(separator(buf, end + 1, 0x7D) == Some((false, end + 2)));
    assert(doc_members(buf, 1, None) == Some((Some(ts), end + 2)));
    assert(skip_ws_spec(buf, end + 2) == end + 2);
}


/// The record that a flat catalog entry is written as.
pub open spec fn record_of(t: SesameCatalogTrack) -> TrackRecord {
    (t.track_type, encode_utf8(t.track_name@), t.priority)
}

pub open spec fn records_of(ts: Seq<SesameCatalogTrack>) -> Seq<TrackRecord> {
    ts.map_values(|t: SesameCatalogTrack| record_of(t))
}

/// Every name in the records is valid UTF-8.
pub open spec fn names_valid(ts: Seq<TrackRecord>) -> bool {
    forall|i: int| 0 <= i < ts.len() ==> valid_utf8(#[trigger] ts[i].1)
}

/// The outcome of reading a flat catalog from `bytes`: the catalog whose
/// records the document holds, or `Malformed` when the bytes are not such a
/// document or a name is not valid UTF-8.
pub open spec fn flat_read(bytes: Seq<u8>, r: Result<SesameCatalog, WrapperError>) -> bool {
    match parse_flat_spec(bytes) {
        Some(ts) => if names_valid(ts) {
            r matches Ok(c) && records_of(c.tracks@) == ts
        } else {
            r matches Err(WrapperError::Malformed(_))
        },
        None => r matches Err(WrapperError::Malformed(_)),
    }
}

/// Relies on `String::from_utf8`: the bytes become a string holding exactly
/// them when they are valid UTF-8, and are refused otherwise.
#[verifier::external_body]
fn string_from_utf8(b: Vec<u8>) -> (r: Option<String>)
    ensures
        r is Some == valid_utf8(b@),
        r matches Some(s) ==> s@ == decode_utf8(b@),
{
    String::from_utf8(b).ok()
}

fn copy_bytes(v: &Vec<u8>) -> (r: Vec<u8>)
    ensures
        r@ == v@,
{
    let mut out: Vec<u8> = Vec::new();
    let mut i: usize = 0;
    while i < v.len()
        invariant
            i <= v@.len(),
            out@ == v@.take(i as int),
        decreases v@.len() - i,
    {
        out.push(v[i]);
        i = i + 1;
        assert(out@ =~= v@.take(i as int));
    }
    assert(v@.take(v@.len() as int) =~= v@);
    out
}

impl SesameCatalog {
    /// The catalog as a JSON document: `{"tracks":[{"type":..,"trackName":..,"priority":..},..]}`.
    pub fn to_json_bytes(&self) -> (r: Vec<u8>)
        ensures
            r@ == flat_json(records_of(self.tracks@)),
    {
        let ghost recs = records_of(self.tracks@);
        let mut out: Vec<u8> = Vec::new();
        out.push(0x7B);
        let kt = vec![0x74u8, 0x72, 0x61, 0x63, 0x6b, 0x73];
        assert(kt@ =~= key_tracks());
        push_quoted(&mut out, kt.as_slice());
        out.push(0x3A);
        out.push(0x5B);
        let ghost head = out@;
        let mut i: usize = 0;
        assert(recs.take(0) =~= Seq::<TrackRecord>::empty());
        while i < self.tracks.len()
            invariant
                i <= self.tracks@.len(),
                recs == records_of(self.tracks@),
                out@ == head + tracks_json(recs.take(i as int)),
            decreases self.tracks@.len() - i,
        {
            let t = &self.tracks[i];
            proof {
                assert(recs.take(i + 1) =~= recs.take(i as int).push(recs[i as int]));
                lemma_tracks_json_step(recs.take(i as int), recs[i as int]);
            }
            if i > 0 {
                out.push(0x2C);
            }
            let name = t.track_name.as_str().as_bytes();
            write_track(&mut out, t.track_type, name, t.priority);
            i = i + 1;
            assert(out@ =~= head + tracks_json(recs.take(i as int)));
        }
        out.push(0x5D);
        out.push(0x7D);
        assert(recs.take(recs.len() as int) =~= recs);
        assert(out@ =~= flat_json(recs));
        out
    }

    /// The catalog as JSON text.
    pub fn to_json(&self) -> (r: Result<String, WrapperError>)
        ensures
            r is Ok == valid_utf8(flat_json(records_of(self.tracks@))),
            r matches Ok(s) ==> s@ == decode_utf8(flat_json(records_of(self.tracks@))),
            r matches Err(e) ==> e is Malformed,
    {
        match string_from_utf8(self.to_json_bytes()) {
            Some(s) => Ok(s),
            None => Err(WrapperError::Malformed("catalog is not valid UTF-8".to_string())),
        }
    }

    /// Reads a flat catalog document.
    pub fn from_json_bytes(buf: &[u8]) -> (r: Result<SesameCatalog, WrapperError>)
        ensures
            flat_read(buf@, r),
    {
        let parsed = match parse_flat(buf) {
            Some(v) => v,
            None => {
                return Err(WrapperError::Malformed("not a flat catalog document".to_string()));
            },
        };
        let ghost ts = parsed_view(parsed@);
        assert(parse_flat_spec(buf@) == Some(ts));
        let mut tracks: Vec<SesameCatalogTrack> = Vec::new();
        let mut i: usize = 0;
        while i < parsed.len()
            invariant
                i <= parsed@.len(),
                ts == parsed_view(parsed@),
                parse_flat_spec(buf@) == Some(ts),
                tracks@.len() == i,
                records_of(tracks@) == ts.take(i as int),
                forall|k: int| 0 <= k < i ==> valid_utf8(#[trigger] ts[k].1),
            decreases parsed@.len() - i,
        {
            let p = &parsed[i];
            let bytes = copy_bytes(&p.name);
            let name = match string_from_utf8(bytes) {
                Some(s) => s,
                None => {
                    assert(!valid_utf8(ts[i as int].1));
                    assert(!names_valid(ts));
                    return Err(WrapperError::Malformed("track name is not valid UTF-8".to_string()));
                },
            };
            proof {
                decode_utf8_encode_utf8(p.name@);
            }
            let ghost before = tracks@;
            tracks.push(SesameCatalogTrack { track_type: p.kind, track_name: name, priority: p.priority });
            i = i + 1;
            assert(records_of(tracks@) =~= ts.take(i as int)) by {
                assert(records_of(before) == ts.take(i - 1));
                assert forall|k: int| 0 <= k < i implies records_of(tracks@)[k] == ts.take(i as int)[k] by {
                    if k < i - 1 {
                        assert(records_of(before)[k] == ts.take(i - 1)[k]);
                    }
                }
            }
        }
        assert(ts.take(ts.len() as int) =~= ts);
        Ok(SesameCatalog { tracks })
    }

    /// Reads a flat catalog from JSON text.
    pub fn from_json(json: &str) -> (r: Result<SesameCatalog, WrapperError>)
        ensures
            flat_read(encode_utf8(json@), r),
    {
        Self::from_json_bytes(json.as_bytes())
    }
}

/// Writing a flat catalog and reading it back gives the same catalog: the
/// same tracks in the same order, with the same kinds, names and priorities.
pub proof fn lemma_flat_round_trip(c: SesameCatalog, r: Result<SesameCatalog, WrapperError>)
    requires
        flat_read(flat_json(records_of(c.tracks@)), r),
    ensures
        r matches Ok(c2) && c2.tracks@.len() == c.tracks@.len() && forall|i: int| 0 <= i < c.tracks@.len() ==> {
            &&& (#[trigger] c2.tracks@[i]).track_type == c.tracks@[i].track_type
            &&& c2.tracks@[i].track_name@ == c.tracks@[i].track_name@
            &&& c2.tracks@[i].priority == c.tracks@[i].priority
        },
{
    let recs = records_of(c.tracks@);
    lemma_flat_json_parses(recs);
    assert forall|i: int| 0 <= i < recs.len() implies valid_utf8(#[trigger] recs[i].1) by {
        encode_utf8_valid_utf8(c.tracks@[i].track_name@);
    }
    let c2 = r->Ok_0;
    assert forall|i: int| 0 <= i < c.tracks@.len() implies {
        &&& (#[trigger] c2.tracks@[i]).track_type == c.tracks@[i].track_type
        &&& c2.tracks@[i].track_name@ == c.tracks@[i].track_name@
        &&& c2.tracks@[i].priority == c.tracks@[i].priority
    } by {
        assert(records_of(c2.tracks@)[i] == recs[i]);
        encode_utf8_decode_utf8(c2.tracks@[i].track_name@);
        encode_utf8_decode_utf8(c.tracks@[i].track_name@);
    }
}

} // verus!
