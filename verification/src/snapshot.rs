//! Screen-state types shared across the protocol: stable region references,
//! terminal geometry, detected regions, and the content hash used for cheap
//! change detection.

use vstd::prelude::*;
use vstd::string::StringExecFns;
use vstd::string::StrSliceExecFns;

use crate::chars::{spec_is_ascii_digit, is_ascii_digit_char};
use crate::error::ApiError;

verus! {

/// A reference identifier in the form `@e<number>`.
pub open spec fn spec_valid_ref_format(s: Seq<char>) -> bool {
    &&& s.len() >= 3
    &&& s[0] == '@'
    &&& s[1] == 'e'
    &&& forall|i: int| 2 <= i < s.len() ==> spec_is_ascii_digit(#[trigger] s[i])
}

/// A unique identifier for an interactive region, formatted `@e<number>`
/// (for example `@e1`), or empty before references are assigned.
#[derive(Debug, Clone)]
pub struct RefId(String);

impl View for RefId {
    type V = Seq<char>;

    closed spec fn view(&self) -> Seq<char> {
        self.0@
    }
}

impl RefId {
    /// Builds a reference identifier; the caller guarantees the format.
    /// An empty string stands for a reference not yet assigned.
    pub fn new(id: &str) -> (r: RefId)
        requires
            id@.len() == 0 || spec_valid_ref_format(id@),
        ensures
            r@ == id@,
    {
        RefId(String::from_str(id))
    }

    /// Validates untrusted input: `Ok` exactly on the empty string or a
    /// well-formed `@e<number>` reference.
    pub fn try_new(id: &str) -> (r: Result<RefId, ApiError>)
        ensures
            id@.len() == 0 || spec_valid_ref_format(id@) ==> (r matches Ok(v) && v@ == id@),
            !(id@.len() == 0 || spec_valid_ref_format(id@)) ==> (r matches Err(e) && e.code
                == crate::error::ErrorCode::InvalidInput && e.message@ == "Invalid ref id '"@
                + id@ + "'"@ && (e.suggestion matches Some(s) && s@
                == "Use a ref from snapshot output, formatted as @e<number> (e.g., @e1)."@)),
    {
        if id.unicode_len() == 0 || Self::is_valid_format(id) {
            Ok(RefId(String::from_str(id)))
        } else {
            let message = String::from_str("Invalid ref id '").concat(id).concat("'");
            Err(
                ApiError::invalid_input_with_suggestion(
                    message.as_str(),
                    "Use a ref from snapshot output, formatted as @e<number> (e.g., @e1).",
                ),
            )
        }
    }

    /// Whether `s` is `@e` followed by one or more decimal digits.
    pub fn is_valid_format(s: &str) -> (r: bool)
        ensures
            r == spec_valid_ref_format(s@),
    {
        let n = s.unicode_len();
        if n < 3 {
            return false;
        }
        if s.get_char(0) != '@' || s.get_char(1) != 'e' {
            return false;
        }
        for i in 2..n
            invariant
                n == s@.len(),
                n >= 3,
                s@[0] == '@',
                s@[1] == 'e',
                forall|j: int| 2 <= j < i ==> spec_is_ascii_digit(#[trigger] s@[j]),
        {
            if !is_ascii_digit_char(s.get_char(i)) {
                return false;
            }
        }
        true
    }

    /// The inner string value.
    pub fn as_str(&self) -> (r: &str)
        ensures
            r@ == self@,
    {
        self.0.as_str()
    }

    /// A copy of this reference.
    pub fn duplicate(&self) -> (r: RefId)
        ensures
            r@ == self@,
    {
        RefId(self.0.clone())
    }

    /// Whether two references carry the same identifier.
    pub fn same_ref(&self, other: &RefId) -> (r: bool)
        ensures
            r == (self@ == other@),
    {
        self.0 == other.0
    }
}

/// Terminal dimensions.
#[derive(Debug, Clone, Copy, PartialEq, Eq, Structural)]
pub struct TerminalSize {
    pub cols: u16,
    pub rows: u16,
}

/// Cursor position and visibility.
#[derive(Debug, Clone, Copy, PartialEq, Eq, Structural)]
pub struct CursorState {
    pub row: u16,
    pub col: u16,
    pub visible: bool,
}

/// A rectangular region on the screen.
#[derive(Debug, Clone, Copy, PartialEq, Eq, Structural)]
pub struct Rect {
    pub x: u16,
    pub y: u16,
    pub width: u16,
    pub height: u16,
}

/// Type of interactive region.
#[derive(Debug, Clone, Copy, PartialEq, Eq, Structural)]
pub enum RegionType {
    Button,
    TextInput,
    MenuItem,
    Checkbox,
    RadioButton,
    Link,
    ScrollableArea,
    Unknown,
}

/// An interactive region detected on the screen.
#[derive(Debug, Clone)]
pub struct Region {
    pub ref_id: RefId,
    pub bounds: Rect,
    pub region_type: RegionType,
    pub text: String,
    pub focused: bool,
}

/// Complete screen state snapshot.
#[derive(Debug, Clone)]
pub struct ScreenState {
    pub snapshot_id: u64,
    pub size: TerminalSize,
    pub cursor: CursorState,
    pub regions: Vec<Region>,
    pub active_region: Option<RefId>,
    /// Plain text content of the screen.
    pub text: Option<String>,
}

impl ScreenState {
    /// A blank screen state of the given dimensions.
    pub fn empty(cols: u16, rows: u16) -> (r: ScreenState)
        ensures
            r.snapshot_id == 0,
            r.size == (TerminalSize { cols, rows }),
            r.cursor == (CursorState { row: 0, col: 0, visible: true }),
            r.regions@.len() == 0,
            r.active_region is None,
            r.text is None,
    {
        ScreenState {
            snapshot_id: 0,
            size: TerminalSize { cols, rows },
            cursor: CursorState { row: 0, col: 0, visible: true },
            regions: Vec::new(),
            active_region: None,
            text: None,
        }
    }
}

/// The FNV-1a offset basis; the hash of the empty byte string.
pub const FNV_OFFSET_BASIS: u64 = 0xcbf29ce484222325;

/// The 64-bit FNV prime.
pub const FNV_PRIME: u64 = 0x100000001b3;

/// One FNV-1a round: fold a byte in, then multiply by the prime mod 2^64.
pub open spec fn spec_fnv1a_step(h: u64, b: u8) -> u64 {
    vstd::wrapping::u64_specs::wrapping_mul(h ^ (b as u64), FNV_PRIME)
}

/// FNV-1a folded over `bytes` starting from state `h`.
pub open spec fn spec_fnv1a_from(h: u64, bytes: Seq<u8>) -> u64
    decreases bytes.len(),
{
    if bytes.len() == 0 {
        h
    } else {
        spec_fnv1a_from(spec_fnv1a_step(h, bytes[0]), bytes.drop_first())
    }
}

/// The 64-bit FNV-1a hash of a byte string.
pub open spec fn spec_fnv1a(bytes: Seq<u8>) -> u64 {
    spec_fnv1a_from(FNV_OFFSET_BASIS, bytes)
}

proof fn lemma_fnv1a_from_take(h: u64, bytes: Seq<u8>, i: int)
    requires
        0 <= i < bytes.len(),
    ensures
        spec_fnv1a_from(h, bytes.take(i + 1)) == spec_fnv1a_step(
            spec_fnv1a_from(h, bytes.take(i)),
            bytes[i],
        ),
    decreases i,
{
    if i == 0 {
        assert(bytes.take(1).len() == 1);
        assert(bytes.take(1)[0] == bytes[0]);
        assert(bytes.take(1).drop_first() =~= Seq::<u8>::empty());
        assert(bytes.take(0).len() == 0);
        assert(spec_fnv1a_from(h, bytes.take(0)) == h);
        assert(spec_fnv1a_from(spec_fnv1a_step(h, bytes[0]), Seq::<u8>::empty())
            == spec_fnv1a_step(h, bytes[0]));
        assert(spec_fnv1a_from(h, bytes.take(1)) == spec_fnv1a_from(
            spec_fnv1a_step(h, bytes.take(1)[0]),
            bytes.take(1).drop_first(),
        ));
    } else {
        let t1 = bytes.take(i + 1);
        let t0 = bytes.take(i);
        let dft = bytes.drop_first();
        let h2 = spec_fnv1a_step(h, bytes[0]);
        assert(t1[0] == bytes[0]);
        assert(t0[0] == bytes[0]);
        assert(t1.drop_first() =~= dft.take(i));
        assert(t0.drop_first() =~= dft.take(i - 1));
        assert(spec_fnv1a_from(h, t1) == spec_fnv1a_from(h2, dft.take(i)));
        assert(spec_fnv1a_from(h, t0) == spec_fnv1a_from(h2, dft.take(i - 1)));
        lemma_fnv1a_from_take(h2, dft, i - 1);
        assert(dft[i - 1] == bytes[i]);
    }
}

/// The content hash of a screen text: 64-bit FNV-1a of its UTF-8 bytes.
/// The hash of the empty string is the FNV offset basis.
pub fn compute_content_hash(text: &str) -> (h: u64)
    ensures
        h == spec_fnv1a(vstd::utf8::encode_utf8(text@)),
        text@.len() == 0 ==> h == FNV_OFFSET_BASIS,
{
    let bytes = text.as_bytes();
    let n = bytes.len();
    let mut h: u64 = FNV_OFFSET_BASIS;
    assert(bytes@.take(0) =~= Seq::<u8>::empty());
    for i in 0..n
        invariant
            n == bytes@.len(),
            bytes@ == vstd::utf8::encode_utf8(text@),
            h == spec_fnv1a_from(FNV_OFFSET_BASIS, bytes@.take(i as int)),
    {
        proof {
            lemma_fnv1a_from_take(FNV_OFFSET_BASIS, bytes@, i as int);
        }
        h = (h ^ (bytes[i] as u64)).wrapping_mul(FNV_PRIME);
    }
    assert(bytes@.take(n as int) =~= bytes@);
    h
}

} // verus!
