//! Scans of a HID report descriptor's items for what `hidreport` cannot
//! parse without panicking, so that such a descriptor is refused before it
//! is handed over:
//! - a usage that gets no usage page: a Usage of one or two bytes that
//!   reaches a Collection, or a data field of an Input, Output or Feature
//!   item, while no Usage Page is in force and no Usage Minimum was given;
//! - report sizes that overflow the 32-bit bit positions `hidreport` gives
//!   its fields: the bits of all data items (report size times report
//!   count), with eight bits per descriptor byte, must stay below 2^32.
use vstd::prelude::*;

verus! {

/// What the scan keeps of one level of the Push/Pop stack: the global
/// items that matter (a usage page is set; the report count and size are
/// set and not zero) and the local ones (a usage without its own page is
/// pending; a usage minimum was given).
#[derive(Debug, Clone, Copy, PartialEq, Eq)]
pub struct ScanFrame {
    pub page: bool,
    pub count_set: bool,
    pub size_set: bool,
    pub pageless: bool,
    pub has_min: bool,
}

/// The state at the start of a descriptor.
pub open spec fn initial_frame() -> ScanFrame {
    ScanFrame { page: false, count_set: false, size_set: false, pageless: false, has_min: false }
}

/// The number of data bytes of a short item with prefix `p`.
pub open spec fn data_len(p: u8) -> int {
    if p % 4 == 3 {
        4
    } else {
        (p % 4) as int
    }
}

/// Whether some byte of `data` is not zero (its little endian value is not).
pub open spec fn nonzero(data: Seq<u8>) -> bool {
    exists|k: int| 0 <= k < data.len() && data[k] != 0
}

/// A frame with the local items reset, as after a main item.
pub open spec fn reset_locals(f: ScanFrame) -> ScanFrame {
    ScanFrame { pageless: false, has_min: false, ..f }
}

/// Whether compiling the usages of `f` would look for a usage page that
/// is not there.
pub open spec fn misses_page(f: ScanFrame) -> bool {
    f.pageless && !f.has_min && !f.page
}

/// One item with prefix `p` and data `data` applied to the stack `st`
/// (not empty): the new stack, and whether the item finds a usage without
/// a page.
pub open spec fn scan_step(st: Seq<ScanFrame>, p: u8, data: Seq<u8>) -> (Seq<ScanFrame>, bool) {
    let top = st.last();
    let key = p / 4;
    let set_top = |f: ScanFrame| st.update(st.len() - 1, f);
    if key == 1 {
        (set_top(ScanFrame { page: true, ..top }), false)
    } else if key == 29 {
        (set_top(ScanFrame { size_set: nonzero(data), ..top }), false)
    } else if key == 37 {
        (set_top(ScanFrame { count_set: nonzero(data), ..top }), false)
    } else if key == 41 {
        (st.push(top), false)
    } else if key == 45 {
        (if st.len() > 1 {
            st.drop_last()
        } else {
            st
        }, false)
    } else if key == 2 {
        (if data.len() != 4 {
            set_top(ScanFrame { pageless: true, ..top })
        } else {
            st
        }, false)
    } else if key == 6 {
        (set_top(ScanFrame { has_min: true, ..top }), false)
    } else if key == 40 {
        (set_top(reset_locals(top)), misses_page(top))
    } else if key == 32 || key == 36 || key == 44 {
        let constant = data.len() > 0 && data[0] % 2 == 1;
        (set_top(reset_locals(top)), top.count_set && top.size_set && !constant && misses_page(top))
    } else if key == 48 {
        (set_top(reset_locals(top)), false)
    } else {
        (st, false)
    }
}

/// Whether the items of `bytes` from `pos` on, starting from the stack
/// `st`, reach a usage without a page.  The scan ends at an item that does
/// not fit in the bytes.
pub open spec fn misses_page_from(bytes: Seq<u8>, pos: int, st: Seq<ScanFrame>) -> bool
    decreases bytes.len() - pos,
{
    if pos < 0 || pos >= bytes.len() || st.len() == 0 {
        false
    } else {
        let n = data_len(bytes[pos]);
        if pos + n >= bytes.len() {
            false
        } else {
            let (st2, hit) = scan_step(st, bytes[pos], bytes.subrange(pos + 1, pos + 1 + n));
            hit || misses_page_from(bytes, pos + 1 + n, st2)
        }
    }
}

/// Whether a usage of the descriptor `bytes` gets no usage page.
pub open spec fn usage_page_missing(bytes: Seq<u8>) -> bool {
    misses_page_from(bytes, 0, seq![initial_frame()])
}

fn any_nonzero(bytes: &[u8], from: usize, n: usize) -> (r: bool)
    requires
        from + n <= bytes@.len(),
    ensures
        r == nonzero(bytes@.subrange(from as int, from + n)),
{
    let ghost d = bytes@.subrange(from as int, from + n);
    let len = bytes.len();
    let mut k: usize = 0;
    while k < n
        invariant
            len == bytes@.len(),
            from + n <= bytes@.len(),
            d == bytes@.subrange(from as int, from + n),
            k <= n,
            forall|j: int| 0 <= j < k ==> d[j] == 0,
        decreases n - k,
    {
        if bytes[from + k] != 0 {
            assert(d[k as int] != 0);
            return true;
        }
        k = k + 1;
    }
    false
}

/// Whether a usage of the descriptor gets no usage page (see the module's
/// description); such a descriptor cannot be parsed.
pub fn lacks_usage_page(bytes: &[u8]) -> (r: bool)
    ensures
        r == usage_page_missing(bytes@),
{
    let len = bytes.len();
    let mut st: Vec<ScanFrame> = Vec::new();
    st.push(ScanFrame { page: false, count_set: false, size_set: false, pageless: false, has_min: false });
    assert(st@ =~= seq![initial_frame()]);
    let mut pos: usize = 0;
    while pos < len
        invariant
            len == bytes@.len(),
            pos <= len,
            st@.len() > 0,
            misses_page_from(bytes@, pos as int, st@) == usage_page_missing(bytes@),
        decreases len - pos,
    {
        let p = bytes[pos];
        let n: usize = if p % 4 == 3 {
            4
        } else {
            (p % 4) as usize
        };
        if n >= len - pos {
            return false;
        }
        let ghost data = bytes@.subrange(pos + 1, pos + 1 + n);
        let ghost (st2, hit) = scan_step(st@, p, data);
        let key = p / 4;
        let last = st.len() - 1;
        let top = st[last];
        let mut found = false;
        if key == 1 {
            st.set(last, ScanFrame { page: true, ..top });
        } else if key == 29 {
            let v = any_nonzero(bytes, pos + 1, n);
            st.set(last, ScanFrame { size_set: v, ..top });
        } else if key == 37 {
            let v = any_nonzero(bytes, pos + 1, n);
            st.set(last, ScanFrame { count_set: v, ..top });
        } else if key == 41 {
            st.push(top);
        } else if key == 45 {
            if st.len() > 1 {
                st.pop();
            }
        } else if key == 2 {
            if n != 4 {
                st.set(last, ScanFrame { pageless: true, ..top });
            }
        } else if key == 6 {
            st.set(last, ScanFrame { has_min: true, ..top });
        } else if key == 40 {
            found = top.pageless && !top.has_min && !top.page;
            st.set(last, ScanFrame { pageless: false, has_min: false, ..top });
        } else if key == 32 || key == 36 || key == 44 {
            let constant = n > 0 && bytes[pos + 1] % 2 == 1;
            assert(n > 0 ==> data[0] == bytes@[pos + 1]);
            found = top.count_set && top.size_set && !constant && top.pageless && !top.has_min && !top.page;
            st.set(last, ScanFrame { pageless: false, has_min: false, ..top });
        } else if key == 48 {
            st.set(last, ScanFrame { pageless: false, has_min: false, ..top });
        }
        assert(st@ =~= st2);
        assert(found == hit);
        if found {
            return true;
        }
        pos = pos + 1 + n;
    }
    false
}

// ---------------------------------------------------------------------
// The bits of the data items
// ---------------------------------------------------------------------

/// The unsigned little endian value of the data of a short item (none, one,
/// two or four bytes), as `hidreport` reads a report size or count.
pub open spec fn item_value(d: Seq<u8>) -> nat {
    if d.len() == 0 {
        0
    } else if d.len() == 1 {
        d[0] as nat
    } else if d.len() == 2 {
        d[0] as nat + d[1] as nat * 256
    } else {
        d[0] as nat + d[1] as nat * 256 + d[2] as nat * 65536 + d[3] as nat * 16777216
    }
}

/// One item with prefix `p` and data `data` applied to the stack `st` (not
/// empty) of report sizes and counts: the new stack and the bits the item
/// adds, its size times its count for an Input, Output or Feature item.
pub open spec fn bits_step(st: Seq<(nat, nat)>, p: u8, data: Seq<u8>) -> (Seq<(nat, nat)>, nat) {
    let top = st.last();
    let key = p / 4;
    if key == 29 {
        (st.update(st.len() - 1, (item_value(data), top.1)), 0)
    } else if key == 37 {
        (st.update(st.len() - 1, (top.0, item_value(data))), 0)
    } else if key == 41 {
        (st.push(top), 0)
    } else if key == 45 {
        (if st.len() > 1 {
            st.drop_last()
        } else {
            st
        }, 0)
    } else if key == 32 || key == 36 || key == 44 {
        (st, top.0 * top.1)
    } else {
        (st, 0)
    }
}

/// The bits of the data items of `bytes` from `pos` on, starting from the
/// stack `st`; the sum ends at an item that does not fit in the bytes.
pub open spec fn data_bits_from(bytes: Seq<u8>, pos: int, st: Seq<(nat, nat)>) -> nat
    decreases bytes.len() - pos,
{
    if pos < 0 || pos >= bytes.len() || st.len() == 0 {
        0
    } else {
        let n = data_len(bytes[pos]);
        if pos + n >= bytes.len() {
            0
        } else {
            let (st2, bits) = bits_step(st, bytes[pos], bytes.subrange(pos + 1, pos + 1 + n));
            bits + data_bits_from(bytes, pos + 1 + n, st2)
        }
    }
}

/// The bits of all data items of the descriptor `bytes`.
pub open spec fn data_bits(bytes: Seq<u8>) -> nat {
    data_bits_from(bytes, 0, seq![(0nat, 0nat)])
}

/// Whether the bit positions `hidreport` computes for the descriptor fit in
/// 32 bits: eight per descriptor byte, the bits of all data items, and the
/// eight bits of a report id.
pub open spec fn bits_fit(bytes: Seq<u8>) -> bool {
    8 * bytes.len() + data_bits(bytes) + 8 <= u32::MAX
}

fn item_value_of(bytes: &[u8], from: usize, n: usize) -> (r: u64)
    requires
        from + n <= bytes@.len(),
        n == 0 || n == 1 || n == 2 || n == 4,
    ensures
        r == item_value(bytes@.subrange(from as int, from + n)),
        r <= u32::MAX,
{
    let ghost d = bytes@.subrange(from as int, from + n);
    if n == 0 {
        0
    } else if n == 1 {
        bytes[from] as u64
    } else if n == 2 {
        assert(d[0] == bytes@[from as int] && d[1] == bytes@[from + 1]);
        bytes[from] as u64 + bytes[from + 1] as u64 * 256
    } else {
        assert(d[0] == bytes@[from as int] && d[1] == bytes@[from + 1] && d[2] == bytes@[from + 2]
            && d[3] == bytes@[from + 3]);
        bytes[from] as u64 + bytes[from + 1] as u64 * 256 + bytes[from + 2] as u64 * 65536
            + bytes[from + 3] as u64 * 16777216
    }
}

/// Whether the bit positions of the descriptor's fields fit in 32 bits (see
/// the module's description); larger descriptors cannot be parsed.
pub fn report_bits_fit(bytes: &[u8]) -> (r: bool)
    ensures
        r == bits_fit(bytes@),
{
    let len = bytes.len();
    if len > 536870910 {
        return false;
    }
    let limit: u64 = 4294967295 - 8 - 8 * (len as u64);
    let mut st: Vec<(u64, u64)> = Vec::new();
    st.push((0, 0));
    let ghost init: Seq<(nat, nat)> = seq![(0nat, 0nat)];
    assert(st@.map_values(|e: (u64, u64)| (e.0 as nat, e.1 as nat)) =~= init);
    let mut total: u64 = 0;
    let mut pos: usize = 0;
    while pos < len
        invariant
            len == bytes@.len(),
            len <= 536870910,
            limit == u32::MAX - 8 - 8 * len,
            pos <= len,
            st@.len() > 0,
            forall|k: int| 0 <= k < st@.len() ==> (#[trigger] st@[k]).0 <= u32::MAX && st@[k].1 <= u32::MAX,
            total <= limit,
            total + data_bits_from(bytes@, pos as int, st@.map_values(|e: (u64, u64)| (e.0 as nat, e.1 as nat)))
                == data_bits(bytes@),
        decreases len - pos,
    {
        let ghost sv = st@.map_values(|e: (u64, u64)| (e.0 as nat, e.1 as nat));
        let p = bytes[pos];
        let n: usize = if p % 4 == 3 {
            4
        } else {
            (p % 4) as usize
        };
        if n >= len - pos {
            return true;
        }
        let ghost data = bytes@.subrange(pos + 1, pos + 1 + n);
        let ghost (sv2, bits) = bits_step(sv, p, data);
        let key = p / 4;
        let last = st.len() - 1;
        let top = st[last];
        let mut add: u64 = 0;
        if key == 29 {
            let v = item_value_of(bytes, pos + 1, n);
            st.set(last, (v, top.1));
        } else if key == 37 {
            let v = item_value_of(bytes, pos + 1, n);
            st.set(last, (top.0, v));
        } else if key == 41 {
            st.push(top);
        } else if key == 45 {
            if st.len() > 1 {
                st.pop();
            }
        } else if key == 32 || key == 36 || key == 44 {
            assert(top.0 * top.1 <= u32::MAX * u32::MAX) by (nonlinear_arith)
                requires
                    top.0 <= u32::MAX,
                    top.1 <= u32::MAX,
            ;
            add = top.0 * top.1;
        }
        assert(st@.map_values(|e: (u64, u64)| (e.0 as nat, e.1 as nat)) =~= sv2);
        assert(add == bits);
        if add > limit - total {
            return false;
        }
        total = total + add;
        pos = pos + 1 + n;
    }
    true
}

} // verus!
