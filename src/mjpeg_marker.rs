use crate::marker::BcDataMarked;
use crate::marker::Header;
use crate::marker::headers_view;
use vstd::prelude::*;
use vstd::slice::slice_subrange;
use vstd::slice::slice_to_vec;

verus! {

pub const SPACE: u8 = 0x20;
pub const QUOTE: u8 = 0x22;
pub const DASH: u8 = 0x2d;
pub const EQUALS: u8 = 0x3d;
pub const CR: u8 = 0x0d;
pub const LF: u8 = 0x0a;

/// Bytes trimmed from both ends of a boundary parameter: space and double quote.
pub open spec fn is_pad(b: u8) -> bool {
    b == SPACE || b == QUOTE
}

pub open spec fn trim_front(s: Seq<u8>) -> Seq<u8>
    decreases s.len(),
{
    if s.len() > 0 && is_pad(s[0]) {
        trim_front(s.drop_first())
    } else {
        s
    }
}

pub open spec fn trim_back(s: Seq<u8>) -> Seq<u8>
    decreases s.len(),
{
    if s.len() > 0 && is_pad(s.last()) {
        trim_back(s.drop_last())
    } else {
        s
    }
}

/// `s` without its leading and trailing pad bytes.
pub open spec fn trimmed(s: Seq<u8>) -> Seq<u8> {
    trim_back(trim_front(s))
}

/// `val` without its leading and trailing spaces and double quotes.
pub fn trim_boundary(val: &[u8]) -> (r: &[u8])
    ensures
        r@ == trimmed(val@),
{
    let n = val.len();
    let mut i: usize = 0;
    assert(val@.subrange(0, n as int) =~= val@);
    while i < n && (val[i] == SPACE || val[i] == QUOTE)
        invariant
            n == val@.len(),
            i <= n,
            trim_front(val@.subrange(i as int, n as int)) == trim_front(val@),
        decreases n - i,
    {
        assert(val@.subrange(i as int, n as int).drop_first() =~= val@.subrange(i + 1, n as int));
        i = i + 1;
    }
    assert(trim_front(val@.subrange(i as int, n as int)) == val@.subrange(i as int, n as int));
    let mut j: usize = n;
    while j > i && (val[j - 1] == SPACE || val[j - 1] == QUOTE)
        invariant
            n == val@.len(),
            i <= j <= n,
            trim_back(val@.subrange(i as int, j as int)) == trimmed(val@),
        decreases j,
    {
        assert(val@.subrange(i as int, j as int).drop_last() =~= val@.subrange(i as int, j - 1));
        j = j - 1;
    }
    slice_subrange(val, i, j)
}

/// `p` stands in `c` at index `i`.
pub open spec fn occurs_at(c: Seq<u8>, p: Seq<u8>, i: int) -> bool {
    0 <= i && i + p.len() <= c.len() && c.subrange(i, i + p.len()) == p
}

/// The first index at or after `i` where `p` occurs in `c`.
pub open spec fn first_match(c: Seq<u8>, p: Seq<u8>, i: nat) -> Option<int>
    decreases c.len() + 1 - i,
{
    if i + p.len() > c.len() {
        None
    } else if c.subrange(i as int, (i + p.len()) as int) == p {
        Some(i as int)
    } else {
        first_match(c, p, i + 1)
    }
}

/// The first index at or after `i` where byte `b` stands in `s`.
pub open spec fn first_byte(s: Seq<u8>, b: u8, i: nat) -> Option<int>
    decreases s.len() - i,
{
    if i >= s.len() {
        None
    } else if s[i as int] == b {
        Some(i as int)
    } else {
        first_byte(s, b, i + 1)
    }
}

/// The media type prefix of a multipart replace stream.
pub open spec fn mixed_replace_prefix() -> Seq<u8> {
    seq![0x6d, 0x75, 0x6c, 0x74, 0x69, 0x70, 0x61, 0x72, 0x74, 0x2f, 0x78, 0x2d, 0x6d, 0x69, 0x78,
        0x65, 0x64, 0x2d, 0x72, 0x65, 0x70, 0x6c, 0x61, 0x63, 0x65, 0x3b]
}

/// The header name `content-type`.
pub open spec fn content_type_name() -> Seq<u8> {
    seq![0x63, 0x6f, 0x6e, 0x74, 0x65, 0x6e, 0x74, 0x2d, 0x74, 0x79, 0x70, 0x65]
}

/// The boundary line: `--` in front unless already there, CRLF behind.
pub open spec fn normalized(v: Seq<u8>) -> Seq<u8> {
    let head = if v.len() >= 2 && v[0] == DASH && v[1] == DASH {
        v
    } else {
        seq![DASH, DASH] + v
    };
    head + seq![CR, LF]
}

/// The boundary pattern that a content-type value declares, if any.
pub open spec fn boundary_of(v: Seq<u8>) -> Option<Seq<u8>> {
    if occurs_at(v, mixed_replace_prefix(), 0) {
        let rest = v.subrange(mixed_replace_prefix().len() as int, v.len() as int);
        match first_byte(rest, EQUALS, 0) {
            Some(p) => Some(normalized(trimmed(rest.subrange(p + 1, rest.len() as int)))),
            None => None,
        }
    } else {
        None
    }
}

/// The boundary in force after reading `hs` in order, starting from `b`:
/// the last content-type header that declares one wins.
pub open spec fn boundary_after(b: Option<Seq<u8>>, hs: Seq<(Seq<u8>, Seq<u8>)>) -> Option<Seq<u8>>
    decreases hs.len(),
{
    if hs.len() == 0 {
        b
    } else {
        let prev = boundary_after(b, hs.drop_last());
        let h = hs.last();
        if h.0 == content_type_name() && boundary_of(h.1) is Some {
            boundary_of(h.1)
        } else {
            prev
        }
    }
}

fn mixed_replace_prefix_bytes() -> (r: Vec<u8>)
    ensures
        r@ == mixed_replace_prefix(),
{
    let r: Vec<u8> = vec![0x6d, 0x75, 0x6c, 0x74, 0x69, 0x70, 0x61, 0x72, 0x74, 0x2f, 0x78, 0x2d,
        0x6d, 0x69, 0x78, 0x65, 0x64, 0x2d, 0x72, 0x65, 0x70, 0x6c, 0x61, 0x63, 0x65, 0x3b];
    assert(r@ =~= mixed_replace_prefix());
    r
}

fn content_type_name_bytes() -> (r: Vec<u8>)
    ensures
        r@ == content_type_name(),
{
    let r: Vec<u8> = vec![0x63, 0x6f, 0x6e, 0x74, 0x65, 0x6e, 0x74, 0x2d, 0x74, 0x79, 0x70, 0x65];
    assert(r@ =~= content_type_name());
    r
}

/// Whether `p` stands in `c` at index `at`.
pub(crate) fn matches_at(c: &[u8], p: &[u8], at: usize) -> (r: bool)
    ensures
        r == occurs_at(c@, p@, at as int),
{
    if p.len() > c.len() || at > c.len() - p.len() {
        return false;
    }
    let mut k: usize = 0;
    while k < p.len()
        invariant
            p@.len() == p.len(),
            c@.len() == c.len(),
            at + p@.len() <= c@.len(),
            k <= p@.len(),
            forall|j: int| 0 <= j < k ==> c@[at + j] == p@[j],
        decreases p.len() - k,
    {
        if c[at + k] != p[k] {
            assert(c@.subrange(at as int, at + p@.len())[k as int] != p@[k as int]);
            return false;
        }
        k = k + 1;
    }
    assert(c@.subrange(at as int, at + p@.len()) =~= p@);
    true
}

proof fn lemma_first_byte(s: Seq<u8>, b: u8, i: nat)
    ensures
        match first_byte(s, b, i) {
            Some(k) => i <= k < s.len() && s[k] == b,
            None => true,
        },
    decreases s.len() - i,
{
    if i < s.len() && s[i as int] != b {
        lemma_first_byte(s, b, i + 1);
    }
}

fn position_of(s: &[u8], b: u8) -> (r: Option<usize>)
    ensures
        match r {
            Some(i) => first_byte(s@, b, 0) == Some(i as int),
            None => first_byte(s@, b, 0) is None,
        },
{
    let mut i: usize = 0;
    while i < s.len()
        invariant
            i <= s@.len(),
            first_byte(s@, b, 0) == first_byte(s@, b, i as nat),
        decreases s.len() - i,
    {
        if s[i] == b {
            return Some(i);
        }
        i = i + 1;
    }
    None
}

/// The boundary line for a boundary parameter: `--` in front unless it
/// already starts so, CRLF behind.
pub fn make_boundary(val: &[u8]) -> (r: Vec<u8>)
    ensures
        r@ == normalized(val@),
{
    let mut bound: Vec<u8> = Vec::new();
    if !(val.len() >= 2 && val[0] == DASH && val[1] == DASH) {
        bound.push(DASH);
        bound.push(DASH);
    }
    let ghost head = bound@;
    let mut k: usize = 0;
    while k < val.len()
        invariant
            k <= val@.len(),
            bound@ == head + val@.subrange(0, k as int),
        decreases val.len() - k,
    {
        bound.push(val[k]);
        assert(val@.subrange(0, k + 1) =~= val@.subrange(0, k as int).push(val@[k as int]));
        k = k + 1;
    }
    assert(val@.subrange(0, val@.len() as int) =~= val@);
    bound.push(CR);
    bound.push(LF);
    assert(bound@ =~= normalized(val@));
    bound
}

/// The boundary pattern declared by a content-type header value, or `None`
/// where the value is not a multipart replace type or names no parameter.
pub fn configure(header_value: &[u8]) -> (r: Option<Vec<u8>>)
    ensures
        match r {
            Some(p) => boundary_of(header_value@) == Some(p@),
            None => boundary_of(header_value@) is None,
        },
{
    let prefix = mixed_replace_prefix_bytes();
    if !matches_at(header_value, prefix.as_slice(), 0) {
        return None;
    }
    let rest = slice_subrange(header_value, prefix.len(), header_value.len());
    match position_of(rest, EQUALS) {
        Some(pos) => {
            proof {
                lemma_first_byte(rest@, EQUALS, 0);
            }
            let val = trim_boundary(slice_subrange(rest, pos + 1, rest.len()));
            Some(make_boundary(val))
        },
        None => None,
    }
}

/// Relies on twoway::find_bytes: the index of the first occurrence of
/// `pattern` in `text`, or `None` where it does not occur.
#[verifier::external_body]
fn find_bytes(text: &[u8], pattern: &[u8]) -> (r: Option<usize>)
    ensures
        match r {
            Some(i) => first_match(text@, pattern@, 0) == Some(i as int),
            None => first_match(text@, pattern@, 0) is None,
        },
{
    twoway::find_bytes(text, pattern)
}

proof fn lemma_first_match(c: Seq<u8>, p: Seq<u8>, i: nat)
    ensures
        match first_match(c, p, i) {
            Some(k) => i <= k && occurs_at(c, p, k),
            None => true,
        },
    decreases c.len() + 1 - i,
{
    if i + p.len() <= c.len() && c.subrange(i as int, (i + p.len()) as int) != p {
        lemma_first_match(c, p, i + 1);
    }
}

/// A segment slot: present only where it holds bytes.
pub open spec fn slot(bytes: Seq<u8>, start: bool) -> Option<(Seq<u8>, bool)> {
    if bytes.len() > 0 {
        Some((bytes, start))
    } else {
        None
    }
}

/// The segments, in order, that a chunk `c` is cut into under `boundary`.
pub open spec fn split_segments(c: Seq<u8>, boundary: Option<Seq<u8>>) -> Seq<Option<(Seq<u8>, bool)>> {
    match boundary {
        None => seq![Some((c, true)), None, None],
        Some(p) => if occurs_at(c, p, c.len() - p.len()) {
            seq![slot(c.subrange(0, c.len() - p.len()), false), slot(p, true), None]
        } else {
            match first_match(c, p, 0) {
                Some(i) => seq![
                    slot(c.subrange(0, i), false),
                    slot(p, true),
                    slot(c.subrange(i + p.len(), c.len() as int), false),
                ],
                None => seq![Some((c, false)), None, None],
            }
        },
    }
}

pub open spec fn segment_view(o: Option<BcDataMarked>) -> Option<(Seq<u8>, bool)> {
    match o {
        Some(m) => Some(m@),
        None => None,
    }
}

pub open spec fn slot_bytes(o: Option<(Seq<u8>, bool)>) -> Seq<u8> {
    match o {
        Some(s) => s.0,
        None => Seq::empty(),
    }
}

pub open spec fn slot_starts(o: Option<(Seq<u8>, bool)>) -> nat {
    match o {
        Some(s) => if s.1 { 1 } else { 0 },
        None => 0,
    }
}

/// The bytes of the present segments, concatenated in order.
pub open spec fn joined(s: Seq<Option<(Seq<u8>, bool)>>) -> Seq<u8> {
    slot_bytes(s[0]) + slot_bytes(s[1]) + slot_bytes(s[2])
}

/// How many of the segments start a frame.
pub open spec fn frame_starts(s: Seq<Option<(Seq<u8>, bool)>>) -> nat {
    slot_starts(s[0]) + slot_starts(s[1]) + slot_starts(s[2])
}

/// Cutting a chunk loses and duplicates no byte: the segments put back
/// together are the chunk, and at most one of them starts a frame.
pub proof fn lemma_split_keeps_bytes(c: Seq<u8>, boundary: Option<Seq<u8>>)
    ensures
        joined(split_segments(c, boundary)) == c,
        frame_starts(split_segments(c, boundary)) <= 1,
{
    let s = split_segments(c, boundary);
    assert(forall|b: Seq<u8>, t: bool| slot_bytes(#[trigger] slot(b, t)) =~= b);
    if let Some(p) = boundary {
        if occurs_at(c, p, c.len() - p.len()) {
            assert(c.subrange(0, c.len() - p.len()) + p + Seq::empty() =~= c);
        } else {
            lemma_first_match(c, p, 0);
            if let Some(i) = first_match(c, p, 0) {
                assert(c.subrange(0, i) + p + c.subrange(i + p.len(), c.len() as int) =~= c);
            } else {
                assert(c + Seq::empty() + Seq::empty() =~= c);
            }
        }
    } else {
        assert(c + Seq::empty() + Seq::empty() =~= c);
    }
}

fn segment(bytes: &[u8], start: bool) -> (r: Option<BcDataMarked>)
    ensures
        segment_view(r) == slot(bytes@, start),
{
    if bytes.len() > 0 {
        let v = slice_to_vec(bytes);
        if start {
            Some(BcDataMarked::new_valid_start(v))
        } else {
            Some(BcDataMarked::new_invalid(v))
        }
    } else {
        None
    }
}

/// Finds frame starts in the upstream byte stream.
pub struct MJPEGStartMarker {
    boundary: Option<Vec<u8>>,
}

impl View for MJPEGStartMarker {
    type V = Option<Seq<u8>>;

    /// The boundary pattern in force, if the upstream declared one.
    closed spec fn view(&self) -> Option<Seq<u8>> {
        match self.boundary {
            Some(b) => Some(b@),
            None => None,
        }
    }
}

impl MJPEGStartMarker {
    pub fn new() -> (r: Self)
        ensures
            r@ is None,
    {
        Self { boundary: None }
    }

    /// Takes the boundary pattern from the response headers: each
    /// content-type header that declares one replaces the pattern in force.
    pub fn read_headers(&mut self, headers: &Vec<Header>)
        ensures
            final(self)@ == boundary_after(old(self)@, headers_view(headers@)),
    {
        let name = content_type_name_bytes();
        let mut i: usize = 0;
        while i < headers.len()
            invariant
                i <= headers@.len(),
                name@ == content_type_name(),
                self@ == boundary_after(old(self)@, headers_view(headers@.subrange(0, i as int))),
            decreases headers.len() - i,
        {
            let h = &headers[i];
            assert(h.name@.subrange(0, h.name@.len() as int) =~= h.name@);
            if h.name.len() == name.len() && matches_at(h.name.as_slice(), name.as_slice(), 0) {
                match configure(h.value.as_slice()) {
                    Some(bound) => {
                        self.boundary = Some(bound);
                    },
                    None => {},
                }
            }
            assert(headers_view(headers@.subrange(0, i + 1)).drop_last() =~= headers_view(
                headers@.subrange(0, i as int),
            ));
            assert(headers_view(headers@.subrange(0, i + 1)).last() == h@);
            i = i + 1;
        }
        assert(headers@.subrange(0, headers@.len() as int) =~= headers@);
    }

    /// Cuts `chunk` into at most three segments, in order: bytes that
    /// continue the current frame, the boundary line that starts the next
    /// one, and the bytes that follow it. Empty segments are left out.
    pub fn mark_chunk(&self, chunk: &[u8]) -> (r: [Option<BcDataMarked>; 3])
        ensures
            segment_view(r[0]) == split_segments(chunk@, self@)[0],
            segment_view(r[1]) == split_segments(chunk@, self@)[1],
            segment_view(r[2]) == split_segments(chunk@, self@)[2],
    {
        match &self.boundary {
            None => [Some(BcDataMarked::new_valid_start(slice_to_vec(chunk))), None, None],
            Some(bound) => {
                let n = chunk.len();
                let bl = bound.len();
                if bl <= n && matches_at(chunk, bound.as_slice(), n - bl) {
                    let a = segment(slice_subrange(chunk, 0, n - bl), false);
                    let b = segment(bound.as_slice(), true);
                    return [a, b, None];
                }
                assert(!occurs_at(chunk@, bound@, chunk@.len() - bound@.len()));
                match find_bytes(chunk, bound.as_slice()) {
                    Some(pos) => {
                        proof {
                            lemma_first_match(chunk@, bound@, 0);
                        }
                        let a = segment(slice_subrange(chunk, 0, pos), false);
                        let b = segment(bound.as_slice(), true);
                        let c = segment(slice_subrange(chunk, pos + bl, n), false);
                        [a, b, c]
                    },
                    None => [Some(BcDataMarked::new_invalid(slice_to_vec(chunk))), None, None],
                }
            },
        }
    }
}

} // verus!
