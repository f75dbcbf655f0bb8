//! Messages between realms and the memory manager.
//!
//! Register layout of an allocation request: MR0 tag, MR1 region,
//! MR2 page count, MR3 hint address (0 = any). Of the response: MR0 tag,
//! MR1 address, MR2 page count.

use vstd::prelude::*;
use crate::abi::types::Vaddr;
use crate::abi::layout::{
    PAGE_SIZE, PROCESS_POOL_BASE, PROCESS_POOL_SIZE, REALM_BINARY_BASE, REALM_BINARY_SIZE,
    REALM_LOCAL_BASE, REALM_LOCAL_SIZE,
};

verus! {

/// Tag of a message: requests below 128, responses from 128 on.
#[derive(Clone, Copy, PartialEq, Eq, Debug, Structural)]
pub enum MessageTag {
    /// Request: allocate pages.
    AllocPages,
    /// Response: success.
    Success,
    /// Response: out of memory.
    ErrorOutOfMemory,
    /// Response: malformed request.
    ErrorInvalidRequest,
}

/// Wire value of a tag.
pub open spec fn tag_value(t: MessageTag) -> u64 {
    match t {
        MessageTag::AllocPages => 1,
        MessageTag::Success => 128,
        MessageTag::ErrorOutOfMemory => 129,
        MessageTag::ErrorInvalidRequest => 130,
    }
}

impl MessageTag {
    /// Registers used by an allocation request.
    pub const ALLOC_PAGES_REQUEST_LEN: usize = 4;

    /// Registers used by an allocation response.
    pub const ALLOC_PAGES_RESPONSE_LEN: usize = 3;

    /// The wire value.
    pub fn as_u64(self) -> (v: u64)
        ensures
            v == tag_value(self),
    {
        match self {
            MessageTag::AllocPages => 1,
            MessageTag::Success => 128,
            MessageTag::ErrorOutOfMemory => 129,
            MessageTag::ErrorInvalidRequest => 130,
        }
    }

    /// The tag with the given wire value, if any.
    pub fn from_u64(value: u64) -> (r: Option<Self>)
        ensures
            r matches Some(t) ==> tag_value(t) == value,
            r is Some <==> (value == 1 || value == 128 || value == 129 || value == 130),
    {
        match value {
            1 => Some(MessageTag::AllocPages),
            128 => Some(MessageTag::Success),
            129 => Some(MessageTag::ErrorOutOfMemory),
            130 => Some(MessageTag::ErrorInvalidRequest),
            _ => None,
        }
    }

    /// Whether this is a request tag.
    pub fn is_request(self) -> (b: bool)
        ensures
            b == (tag_value(self) < 128),
    {
        self.as_u64() < 128
    }

    /// Whether this is a response tag.
    pub fn is_response(self) -> (b: bool)
        ensures
            b == (tag_value(self) >= 128),
    {
        self.as_u64() >= 128
    }

    /// Whether this is the success response.
    pub fn is_success(self) -> (b: bool)
        ensures
            b == (self == MessageTag::Success),
    {
        matches!(self, MessageTag::Success)
    }

    /// Whether this is an error response.
    pub fn is_error(self) -> (b: bool)
        ensures
            b == (tag_value(self) >= 128 && self != MessageTag::Success),
    {
        self.is_response() && !self.is_success()
    }

    /// The tag's name, as its debug form prints it.
    pub fn debug_text(self) -> (s: &'static str)
        ensures
            s@ == (match self {
                MessageTag::AllocPages => "AllocPages"@,
                MessageTag::Success => "Success"@,
                MessageTag::ErrorOutOfMemory => "ErrorOutOfMemory"@,
                MessageTag::ErrorInvalidRequest => "ErrorInvalidRequest"@,
            }),
    {
        match self {
            MessageTag::AllocPages => "AllocPages",
            MessageTag::Success => "Success",
            MessageTag::ErrorOutOfMemory => "ErrorOutOfMemory",
            MessageTag::ErrorInvalidRequest => "ErrorInvalidRequest",
        }
    }
}

/// Region named in an allocation request.
#[derive(Clone, Copy, Debug, PartialEq, Eq, Structural)]
pub enum IpcRegionType {
    /// Process pool.
    ProcessPool,
    /// Realm binary heap.
    RealmBinary,
    /// Realm-local data.
    RealmLocal,
}

/// Wire value of a region.
pub open spec fn region_value(r: IpcRegionType) -> u64 {
    match r {
        IpcRegionType::ProcessPool => 1,
        IpcRegionType::RealmBinary => 2,
        IpcRegionType::RealmLocal => 3,
    }
}

/// `(base, limit)` of a region, limit exclusive.
pub open spec fn region_bounds(r: IpcRegionType) -> (u64, u64) {
    match r {
        IpcRegionType::ProcessPool => (PROCESS_POOL_BASE, (PROCESS_POOL_BASE + PROCESS_POOL_SIZE) as u64),
        IpcRegionType::RealmBinary => (REALM_BINARY_BASE, (REALM_BINARY_BASE + REALM_BINARY_SIZE) as u64),
        IpcRegionType::RealmLocal => (REALM_LOCAL_BASE, (REALM_LOCAL_BASE + REALM_LOCAL_SIZE) as u64),
    }
}

/// `a + b` when it fits in a `u64`, else the maximum.
pub open spec fn sat_add(a: u64, b: u64) -> u64 {
    if a + b > u64::MAX { u64::MAX } else { (a + b) as u64 }
}

/// `a * b` when it fits in a `u64`, else the maximum.
pub open spec fn sat_mul(a: u64, b: u64) -> u64 {
    if a * b > u64::MAX { u64::MAX } else { (a * b) as u64 }
}

impl IpcRegionType {
    /// The wire value.
    pub fn as_u64(self) -> (v: u64)
        ensures
            v == region_value(self),
    {
        match self {
            IpcRegionType::ProcessPool => 1,
            IpcRegionType::RealmBinary => 2,
            IpcRegionType::RealmLocal => 3,
        }
    }

    /// The region with the given wire value, if any.
    pub fn from_u64(value: u64) -> (r: Option<Self>)
        ensures
            r matches Some(t) ==> region_value(t) == value,
            r is Some <==> (1 <= value <= 3),
    {
        match value {
            1 => Some(IpcRegionType::ProcessPool),
            2 => Some(IpcRegionType::RealmBinary),
            3 => Some(IpcRegionType::RealmLocal),
            _ => None,
        }
    }

    /// `(base, limit)` of the region, limit exclusive.
    pub fn bounds(self) -> (r: (u64, u64))
        ensures
            r == region_bounds(self),
    {
        match self {
            IpcRegionType::ProcessPool => (PROCESS_POOL_BASE, PROCESS_POOL_BASE + PROCESS_POOL_SIZE),
            IpcRegionType::RealmBinary => (REALM_BINARY_BASE, REALM_BINARY_BASE + REALM_BINARY_SIZE),
            IpcRegionType::RealmLocal => (REALM_LOCAL_BASE, REALM_LOCAL_BASE + REALM_LOCAL_SIZE),
        }
    }

    /// Whether `page_count` pages at `hint` are page-aligned and lie wholly
    /// inside the region.
    pub fn validate_hint(self, hint: Vaddr, page_count: u64) -> (b: bool)
        ensures
            b == (hint@ % PAGE_SIZE == 0 && region_bounds(self).0 <= hint@ && hint@ + page_count
                * PAGE_SIZE <= region_bounds(self).1),
    {
        let hint_start = hint.as_u64();
        assert(hint_start & 4095 == hint_start % 4096) by (bit_vector);
        if hint_start & (PAGE_SIZE - 1) != 0 {
            return false;
        }
        let size = match page_count.checked_mul(PAGE_SIZE) {
            Some(s) => s,
            None => {
                return false;
            },
        };
        let hint_end = match hint_start.checked_add(size) {
            Some(e) => e,
            None => {
                return false;
            },
        };
        let (base, limit) = self.bounds();
        hint_start >= base && hint_end <= limit
    }

    /// The allocation pointer after a hinted allocation: the end of the
    /// hinted range (saturating) when it lies beyond `current_ptr`, else
    /// `current_ptr`.
    pub fn advance_pointer(self, current_ptr: u64, hint: Vaddr, page_count: u64) -> (r: u64)
        ensures
            r == (if sat_add(hint@, sat_mul(page_count, PAGE_SIZE)) > current_ptr {
                sat_add(hint@, sat_mul(page_count, PAGE_SIZE))
            } else {
                current_ptr
            }),
    {
        let size = match page_count.checked_mul(PAGE_SIZE) {
            Some(s) => s,
            None => u64::MAX,
        };
        let hint_end = hint.as_u64().saturating_add(size);
        if hint_end > current_ptr {
            hint_end
        } else {
            current_ptr
        }
    }

    /// The pointer after allocating `page_count` pages at `current_ptr`, or
    /// `None` when it would leave the region's bounds or overflow.
    pub fn allocate_check(self, current_ptr: u64, page_count: u64) -> (r: Option<u64>)
        ensures
            r == (if region_bounds(self).0 <= current_ptr + page_count * PAGE_SIZE
                <= region_bounds(self).1 {
                Some((current_ptr + page_count * PAGE_SIZE) as u64)
            } else {
                None::<u64>
            }),
    {
        let size = match page_count.checked_mul(PAGE_SIZE) {
            Some(s) => s,
            None => {
                proof {
                    assert(page_count * PAGE_SIZE > region_bounds(self).1);
                }
                return None;
            },
        };
        let new_ptr = match current_ptr.checked_add(size) {
            Some(p) => p,
            None => {
                return None;
            },
        };
        let (base, limit) = self.bounds();
        if new_ptr < base || new_ptr > limit {
            return None;
        }
        Some(new_ptr)
    }
}

/// Request to allocate pages in a region.
#[derive(Clone, Copy, Debug)]
pub struct AllocPagesRequest {
    /// Always [`MessageTag::AllocPages`] for requests built here.
    pub tag: MessageTag,
    /// Region to allocate in.
    pub region: IpcRegionType,
    /// Number of pages.
    pub page_count: u64,
    /// Suggested address (0 = any).
    pub hint_vaddr: Vaddr,
}

impl AllocPagesRequest {
    /// A new request.
    pub fn new(region: IpcRegionType, page_count: u64, hint_vaddr: Vaddr) -> (r: Self)
        ensures
            r.tag == MessageTag::AllocPages,
            r.region == region,
            r.page_count == page_count,
            r.hint_vaddr == hint_vaddr,
    {
        AllocPagesRequest { tag: MessageTag::AllocPages, region, page_count, hint_vaddr }
    }

    /// Encodes the request as `[tag, region, page_count, hint]`.
    pub fn to_mrs(self) -> (r: [u64; 4])
        ensures
            r@ == seq![tag_value(self.tag), region_value(self.region), self.page_count, self.hint_vaddr@],
    {
        let r = [self.tag.as_u64(), self.region.as_u64(), self.page_count, self.hint_vaddr.as_u64()];
        assert(r@ =~= seq![tag_value(self.tag), region_value(self.region), self.page_count, self.hint_vaddr@]);
        r
    }

    /// Decodes a request; `None` unless MR0 is the allocation tag and MR1 a
    /// valid region.
    pub fn from_mrs(mrs: [u64; 4]) -> (r: Option<Self>)
        ensures
            r is Some <==> (mrs[0] == 1 && 1 <= mrs[1] <= 3),
            r matches Some(q) ==> q.tag == MessageTag::AllocPages && region_value(q.region)
                == mrs[1] && q.page_count == mrs[2] && q.hint_vaddr@ == mrs[3],
    {
        let tag = match MessageTag::from_u64(mrs[0]) {
            Some(t) => t,
            None => {
                return None;
            },
        };
        if !matches!(tag, MessageTag::AllocPages) {
            return None;
        }
        let region = match IpcRegionType::from_u64(mrs[1]) {
            Some(r) => r,
            None => {
                return None;
            },
        };
        Some(AllocPagesRequest { tag, region, page_count: mrs[2], hint_vaddr: Vaddr::new(mrs[3]) })
    }
}

/// Response to an allocation request.
#[derive(Clone, Copy, Debug)]
pub struct AllocPagesResponse {
    /// Success or error tag.
    pub tag: MessageTag,
    /// Start of the allocation (meaningful on success).
    pub vaddr: Vaddr,
    /// Pages allocated (meaningful on success).
    pub page_count: u64,
}

impl AllocPagesResponse {
    /// A success response.
    pub fn success(vaddr: Vaddr, page_count: u64) -> (r: Self)
        ensures
            r.tag == MessageTag::Success,
            r.vaddr == vaddr,
            r.page_count == page_count,
    {
        AllocPagesResponse { tag: MessageTag::Success, vaddr, page_count }
    }

    /// An out-of-memory response.
    pub fn error_out_of_memory() -> (r: Self)
        ensures
            r.tag == MessageTag::ErrorOutOfMemory,
            r.vaddr@ == 0,
            r.page_count == 0,
    {
        AllocPagesResponse { tag: MessageTag::ErrorOutOfMemory, vaddr: Vaddr::null(), page_count: 0 }
    }

    /// An invalid-request response.
    pub fn error_invalid_request() -> (r: Self)
        ensures
            r.tag == MessageTag::ErrorInvalidRequest,
            r.vaddr@ == 0,
            r.page_count == 0,
    {
        AllocPagesResponse { tag: MessageTag::ErrorInvalidRequest, vaddr: Vaddr::null(), page_count: 0 }
    }

    /// Encodes the response as `[tag, vaddr, page_count]`.
    pub fn to_mrs(self) -> (r: [u64; 3])
        ensures
            r@ == seq![tag_value(self.tag), self.vaddr@, self.page_count],
    {
        let r = [self.tag.as_u64(), self.vaddr.as_u64(), self.page_count];
        assert(r@ =~= seq![tag_value(self.tag), self.vaddr@, self.page_count]);
        r
    }

    /// Decodes a response; `None` unless MR0 is a response tag.
    pub fn from_mrs(mrs: [u64; 3]) -> (r: Option<Self>)
        ensures
            r is Some <==> (mrs[0] == 128 || mrs[0] == 129 || mrs[0] == 130),
            r matches Some(q) ==> tag_value(q.tag) == mrs[0] && q.vaddr@ == mrs[1] && q.page_count
                == mrs[2],
    {
        let tag = match MessageTag::from_u64(mrs[0]) {
            Some(t) => t,
            None => {
                return None;
            },
        };
        if tag.is_request() {
            return None;
        }
        Some(AllocPagesResponse { tag, vaddr: Vaddr::new(mrs[1]), page_count: mrs[2] })
    }

    /// Whether the allocation succeeded.
    pub fn is_success(&self) -> (b: bool)
        ensures
            b == (self.tag == MessageTag::Success),
    {
        self.tag.is_success()
    }
}

/// Decoding an encoded request gives the request back.
pub proof fn law_request_round_trip(q: AllocPagesRequest)
    requires
        q.tag == MessageTag::AllocPages,
    ensures
        ({
            let m = seq![tag_value(q.tag), region_value(q.region), q.page_count, q.hint_vaddr@];
            &&& m[0] == 1
            &&& 1 <= m[1] <= 3
            &&& region_value(q.region) == m[1]
            &&& m[2] == q.page_count
            &&& m[3] == q.hint_vaddr@
        }),
{
}

/// Every tag's wire value decodes to that tag, and values are distinct.
pub proof fn law_tag_values_injective(a: MessageTag, b: MessageTag)
    ensures
        tag_value(a) == tag_value(b) ==> a == b,
        region_value_injective(),
{
}

/// Distinct regions have distinct wire values.
pub open spec fn region_value_injective() -> bool {
    forall|a: IpcRegionType, b: IpcRegionType| region_value(a) == region_value(b) ==> a == b
}

/// Error reported by the memory manager.
#[derive(Clone, Copy, Debug, PartialEq, Eq, Structural)]
pub enum LmmError {
    /// Out of physical memory.
    OutOfMemory,
    /// Malformed request.
    InvalidRequest,
    /// Unparseable response.
    InvalidResponse,
}

impl LmmError {
    /// The error a response tag stands for, if it is an error tag.
    pub fn from_tag(tag: MessageTag) -> (r: Option<Self>)
        ensures
            r == (match tag {
                MessageTag::ErrorOutOfMemory => Some(LmmError::OutOfMemory),
                MessageTag::ErrorInvalidRequest => Some(LmmError::InvalidRequest),
                _ => None::<LmmError>,
            }),
    {
        match tag {
            MessageTag::ErrorOutOfMemory => Some(LmmError::OutOfMemory),
            MessageTag::ErrorInvalidRequest => Some(LmmError::InvalidRequest),
            _ => None,
        }
    }
}

} // verus!
