use vstd::prelude::*;

verus! {

/// Scanner state while looking for the end of a JSON value: the
/// container depth, whether the scanner stands inside a string, and
/// whether the last character was an unconsumed backslash.
#[verifier::ext_equal]
pub struct ScanState {
    pub depth: int,
    pub in_str: bool,
    pub esc: bool,
}

/// The scanner state before anything was consumed.
pub open spec fn scan_init() -> ScanState {
    ScanState { depth: 0, in_str: false, esc: false }
}

/// Whether a byte is insignificant whitespace between JSON values.
pub open spec fn json_ws(b: u8) -> bool {
    b == 32 || b == 9 || b == 10 || b == 13
}

/// One byte's effect on the scanner: inside a string only the
/// closing quote and escapes matter; outside, quotes open strings
/// and braces and brackets track the container depth.
pub open spec fn scan_step(st: ScanState, b: u8) -> ScanState {
    if st.in_str {
        if st.esc {
            ScanState { depth: st.depth, in_str: true, esc: false }
        } else if b == 92 {
            ScanState { depth: st.depth, in_str: true, esc: true }
        } else if b == 34 {
            ScanState { depth: st.depth, in_str: false, esc: false }
        } else {
            st
        }
    } else {
        if b == 34 {
            ScanState { depth: st.depth, in_str: true, esc: false }
        } else if b == 123 || b == 91 {
            ScanState { depth: st.depth + 1, in_str: false, esc: false }
        } else if b == 125 || b == 93 {
            ScanState { depth: st.depth - 1, in_str: false, esc: false }
        } else {
            st
        }
    }
}

/// Where the first complete object or array ends, scanning from
/// position `i`: before the frame starts, whitespace is skipped and
/// anything but an opening brace or bracket gives up; within the
/// frame, the first return to depth zero outside a string ends it.
pub open spec fn scan_frame(bytes: Seq<u8>, i: int, st: ScanState, started: bool) -> Option<
    int,
>
    decreases bytes.len() - i,
{
    if i < 0 || i >= bytes.len() {
        None
    } else {
        let b = bytes[i];
        if !started {
            if b == 123 || b == 91 {
                scan_frame(bytes, i + 1, scan_step(st, b), true)
            } else if json_ws(b) {
                scan_frame(bytes, i + 1, st, false)
            } else {
                None
            }
        } else {
            let st2 = scan_step(st, b);
            if !st2.in_str && st2.depth == 0 {
                Some(i + 1)
            } else {
                scan_frame(bytes, i + 1, st2, true)
            }
        }
    }
}

/// Where the first complete frame of the buffer ends, if one has
/// fully arrived.
pub open spec fn spec_frame_end(bytes: Seq<u8>) -> Option<int> {
    scan_frame(bytes, 0, scan_init(), false)
}

/// Finds the end of the first complete JSON object or array in the
/// buffer: the byte length of the prefix holding it, whitespace
/// included. Nothing is returned while the frame is still partial,
/// or when the buffer does not begin, after whitespace, with an
/// object or array.
#[verifier::loop_isolation(false)]
pub fn frame_split(bytes: &Vec<u8>) -> (r: Option<usize>)
    ensures
        match r {
            Some(e) => spec_frame_end(bytes@) == Some(e as int) && 0 < e <= bytes@.len(),
            None => spec_frame_end(bytes@) is None,
        },
{
    let n = bytes.len();
    let mut i: usize = 0;
    let mut depth: usize = 0;
    let mut in_str: bool = false;
    let mut esc: bool = false;
    let mut started: bool = false;
    while i < n
        invariant
            0 <= i <= n,
            n == bytes@.len(),
            depth <= i,
            !started ==> depth == 0 && !in_str && !esc,
            started ==> depth >= 1,
            esc ==> in_str,
            spec_frame_end(bytes@) == scan_frame(
                bytes@,
                i as int,
                ScanState { depth: depth as int, in_str: in_str, esc: esc },
                started,
            ),
        decreases n - i,
    {
        let b = bytes[i];
        if !started {
            if b == 123 || b == 91 {
                started = true;
                depth = 1;
            } else if b == 32 || b == 9 || b == 10 || b == 13 {
            } else {
                return None;
            }
        } else {
            if in_str {
                if esc {
                    esc = false;
                } else if b == 92 {
                    esc = true;
                } else if b == 34 {
                    in_str = false;
                }
            } else {
                if b == 34 {
                    in_str = true;
                } else if b == 123 || b == 91 {
                    depth = depth + 1;
                } else if b == 125 || b == 93 {
                    if depth == 1 {
                        return Some(i + 1);
                    }
                    depth = depth - 1;
                }
            }
        }
        i = i + 1;
    }
    None
}

} // verus!
