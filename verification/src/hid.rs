//! The decisions of the USB-HID layer that touch no device: which devices a
//! caller asked for, what a Linux `uevent` file says about one, how reports
//! are framed around their report id, and the `hidraw` ioctl numbers.
//!
//! Every method of a device takes the report body without a report id and a
//! separate id; the platforms disagree about where the id lives in the
//! buffer, and the framing below is where that is settled.

use vstd::prelude::*;

use crate::text::{decimal, from_utf16_lossy, push_decimal_u64, same_text, trim, trim_spec, utf16_lossy};

verus! {

/// A HID device seen on the bus, before anything is opened.
#[derive(Debug, Clone)]
pub struct HidEntry {
    /// What to open the device by: a `/dev/hidraw*` path, a Windows
    /// interface path, or a macOS location id.
    pub key: String,
    pub vendor: u16,
    pub product: u16,
    /// The product string, where the platform gives one.
    pub name: String,
    /// The USB serial, where there is one.
    pub serial: String,
}

impl PartialEq for HidEntry {
    fn eq(&self, other: &Self) -> (r: bool) {
        self.key == other.key && self.vendor == other.vendor && self.product == other.product
            && self.name == other.name && self.serial == other.serial
    }
}

impl vstd::std_specs::cmp::PartialEqSpecImpl for HidEntry {
    open spec fn obeys_eq_spec() -> bool {
        true
    }

    open spec fn eq_spec(&self, other: &Self) -> bool {
        &&& self.key@ == other.key@
        &&& self.vendor == other.vendor
        &&& self.product == other.product
        &&& self.name@ == other.name@
        &&& self.serial@ == other.serial@
    }
}

impl Eq for HidEntry {}

/// Whether a device with these ids is one the caller asked for: every device
/// when `ids` is empty, else those whose pair is listed.
pub open spec fn id_wanted(ids: Seq<(u16, u16)>, vendor: u16, product: u16) -> bool {
    ids.len() == 0 || ids.contains((vendor, product))
}

/// Whether a device with these ids is one the caller asked for.
pub fn wanted(ids: &[(u16, u16)], vendor: u16, product: u16) -> (b: bool)
    ensures
        b == id_wanted(ids@, vendor, product),
{
    if ids.len() == 0 {
        return true;
    }
    let mut i: usize = 0;
    while i < ids.len()
        invariant
            i <= ids@.len(),
            forall|k: int| 0 <= k < i ==> ids@[k] != (vendor, product),
        decreases ids@.len() - i,
    {
        let (v, p) = ids[i];
        if v == vendor && p == product {
            assert(ids@[i as int] == (vendor, product));
            return true;
        }
        i = i + 1;
    }
    false
}

/// With ids asked for, a device is taken exactly when its own pair of ids is
/// one of them: sharing only the vendor, or only the product, with an
/// asked-for pair is not enough. With none asked for, every device is.
pub proof fn law_only_asked_for_pairs_are_wanted(ids: Seq<(u16, u16)>, vendor: u16, product: u16)
    ensures
        id_wanted(ids, vendor, product) <==> (ids.len() == 0 || exists|k: int|
            0 <= k < ids.len() && (#[trigger] ids[k]).0 == vendor && ids[k].1 == product),
        ids.len() > 0 && (forall|k: int| 0 <= k < ids.len() ==> (#[trigger] ids[k]).1 != product)
            ==> !id_wanted(ids, vendor, product),
        ids.len() > 0 && (forall|k: int| 0 <= k < ids.len() ==> (#[trigger] ids[k]).0 != vendor)
            ==> !id_wanted(ids, vendor, product),
{
    if ids.len() > 0 && ids.contains((vendor, product)) {
        let k = choose|k: int| 0 <= k < ids.len() && ids[k] == (vendor, product);
        assert(ids[k].0 == vendor && ids[k].1 == product);
    }
    if exists|k: int| 0 <= k < ids.len() && (#[trigger] ids[k]).0 == vendor && ids[k].1 == product {
        let k = choose|k: int| 0 <= k < ids.len() && (#[trigger] ids[k]).0 == vendor && ids[k].1
            == product;
        assert(ids[k] == (vendor, product));
    }
}

/// The `asm-generic` ioctl encoding of direction `dir`, number `nr` in the
/// `'H'` (hidraw) group, and argument size `size`.
pub open spec fn ioc_spec(dir: u64, nr: u64, size: u64) -> u64 {
    (dir << 30u64) | (size << 16u64) | (0x48u64 << 8u64) | nr
}

/// The `asm-generic` ioctl number for `dir`, `nr` and `size` in the hidraw
/// group.
pub fn ioc(dir: u64, nr: u64, size: usize) -> (r: u64)
    ensures
        r == ioc_spec(dir, nr, size as u64),
{
    (dir << 30u64) | ((size as u64) << 16u64) | (0x48u64 << 8u64) | nr
}

/// `HIDIOCSFEATURE(len)`: read and write, number 6.
pub fn hidiocsfeature(len: usize) -> (r: u64)
    ensures
        r == ioc_spec(3, 6, len as u64),
        len < 0x4000 ==> r == 0xC000_4806u64 | ((len as u64) << 16u64),
{
    let r = ioc(3, 6, len);
    proof {
        let l = len as u64;
        assert(l < 0x4000 ==> (3u64 << 30u64) | (l << 16u64) | (0x48u64 << 8u64) | 6u64
            == 0xC000_4806u64 | (l << 16u64)) by (bit_vector);
    }
    r
}

/// `HIDIOCGFEATURE(len)`: read and write, number 7.
pub fn hidiocgfeature(len: usize) -> (r: u64)
    ensures
        r == ioc_spec(3, 7, len as u64),
        len < 0x4000 ==> r == 0xC000_4807u64 | ((len as u64) << 16u64),
{
    let r = ioc(3, 7, len);
    proof {
        let l = len as u64;
        assert(l < 0x4000 ==> (3u64 << 30u64) | (l << 16u64) | (0x48u64 << 8u64) | 7u64
            == 0xC000_4807u64 | (l << 16u64)) by (bit_vector);
    }
    r
}

/// A report framed for a platform that takes the id in byte 0: the id, then
/// the body.
pub fn with_report_id(report_id: u8, body: &[u8]) -> (buf: Vec<u8>)
    ensures
        buf@ == seq![report_id] + body@,
{
    let mut buf: Vec<u8> = Vec::new();
    buf.push(report_id);
    let mut i: usize = 0;
    while i < body.len()
        invariant
            i <= body@.len(),
            buf@ == seq![report_id] + body@.take(i as int),
        decreases body@.len() - i,
    {
        buf.push(body[i]);
        i = i + 1;
        assert(buf@ =~= seq![report_id] + body@.take(i as int));
    }
    assert(body@.take(body@.len() as int) =~= body@);
    buf
}

/// How many bytes of a Windows input read land in a body of `body_len`: the
/// read's `n` bytes less the id byte, as many as fit. `None` when nothing
/// was read.
pub fn windows_input_len(n: usize, body_len: usize) -> (k: Option<usize>)
    ensures
        n == 0 ==> k is None,
        n > 0 ==> k == Some(if n - 1 < body_len {
            (n - 1) as usize
        } else {
            body_len
        }),
{
    if n == 0 {
        None
    } else if n - 1 < body_len {
        Some(n - 1)
    } else {
        Some(body_len)
    }
}

// ── Linux uevent files ─────────────────────────────────────────────────────

/// Where the first line of `s` ends: at its first `'\n'`, or at the end.
pub open spec fn line_end(s: Seq<char>) -> int
    decreases s.len(),
{
    if s.len() == 0 {
        0
    } else if s[0] == '\n' {
        0
    } else {
        1 + line_end(s.drop_first())
    }
}

/// Where the first line ends, and that no line break comes before.
pub proof fn lemma_line_end(s: Seq<char>)
    ensures
        0 <= line_end(s) <= s.len(),
        line_end(s) < s.len() ==> s[line_end(s)] == '\n',
        forall|i: int| 0 <= i < line_end(s) ==> s[i] != '\n',
    decreases s.len(),
{
    if s.len() > 0 && s[0] != '\n' {
        lemma_line_end(s.drop_first());
        assert forall|i: int| 0 <= i < line_end(s) implies s[i] != '\n' by {
            if i > 0 {
                assert(s[i] == s.drop_first()[i - 1]);
            }
        }
    }
}

proof fn lemma_line_end_at(s: Seq<char>, e: int)
    requires
        0 <= e <= s.len(),
        e < s.len() ==> s[e] == '\n',
        forall|i: int| 0 <= i < e ==> s[i] != '\n',
    ensures
        line_end(s) == e,
    decreases s.len(),
{
    if s.len() > 0 && s[0] != '\n' {
        let t = s.drop_first();
        assert forall|i: int| 0 <= i < e - 1 implies t[i] != '\n' by {
            assert(t[i] == s[i + 1]);
        }
        if e - 1 < t.len() {
            assert(t[e - 1] == s[e]);
        }
        lemma_line_end_at(t, e - 1);
    }
}

/// The first line of `s` as `str::lines` yields it: up to the first newline,
/// without a carriage return that stands just before that newline.
pub open spec fn first_line(s: Seq<char>) -> Seq<char> {
    let e = line_end(s);
    if e < s.len() && e > 0 && s[e - 1] == '\r' {
        s.take(e - 1)
    } else {
        s.take(e)
    }
}

/// What follows the first line of `s` and its newline.
pub open spec fn rest_after_line(s: Seq<char>) -> Seq<char> {
    let e = line_end(s);
    if e < s.len() {
        s.skip(e + 1)
    } else {
        Seq::empty()
    }
}

/// The value of a `key=value` line, if `line` is one for `key`.
pub open spec fn line_value(line: Seq<char>, key: Seq<char>) -> Option<Seq<char>> {
    if line.len() > key.len() && line.take(key.len() as int) == key && line[key.len() as int]
        == '=' {
        Some(line.skip(key.len() + 1int))
    } else {
        None
    }
}

/// The trimmed value of the first line of `s` that reads `key=value`.
pub open spec fn field_spec(s: Seq<char>, key: Seq<char>) -> Option<Seq<char>>
    decreases s.len(),
{
    if s.len() == 0 {
        None
    } else {
        match line_value(first_line(s), key) {
            Some(v) => Some(trim_spec(v)),
            None => {
                proof {
                    lemma_line_end(s);
                }
                field_spec(rest_after_line(s), key)
            },
        }
    }
}

/// Whether `s@[at..]` begins with `key` followed by `=`, within `s@[..end]`.
fn key_at(s: &str, at: usize, end: usize, key: &str) -> (b: bool)
    requires
        at <= end <= s@.len(),
    ensures
        b == (line_value(s@.subrange(at as int, end as int), key@) is Some),
{
    let line = Ghost(s@.subrange(at as int, end as int));
    let k = key.unicode_len();
    if end - at <= k {
        return false;
    }
    let mut i: usize = 0;
    while i < k
        invariant
            k == key@.len(),
            at + k < end <= s@.len(),
            line@ == s@.subrange(at as int, end as int),
            i <= k,
            forall|j: int| 0 <= j < i ==> line@[j] == key@[j],
        decreases k - i,
    {
        if s.get_char(at + i) != key.get_char(i) {
            assert(line@.take(k as int)[i as int] != key@[i as int]);
            return false;
        }
        i = i + 1;
    }
    assert(line@.take(k as int) =~= key@);
    s.get_char(at + k) == '='
}

/// The trimmed value of the first line of `uevent` that reads `key=value`.
pub fn field(uevent: &str, key: &str) -> (r: Option<String>)
    ensures
        r matches Some(v) ==> field_spec(uevent@, key@) == Some(v@),
        r is None ==> field_spec(uevent@, key@) is None,
{
    let n = uevent.unicode_len();
    let mut p: usize = 0;
    assert(uevent@.skip(0) =~= uevent@);
    while p < n
        invariant
            n == uevent@.len(),
            p <= n,
            field_spec(uevent@, key@) == field_spec(uevent@.skip(p as int), key@),
        decreases n - p,
    {
        let ghost rest = uevent@.skip(p as int);
        let mut e = p;
        while e < n && uevent.get_char(e) != '\n'
            invariant
                p <= e <= n,
                n == uevent@.len(),
                rest == uevent@.skip(p as int),
                forall|i: int| 0 <= i < e - p ==> rest[i] != '\n',
            decreases n - e,
        {
            e = e + 1;
        }
        proof {
            if e < n {
                assert(rest[e - p] == uevent@[e as int]);
            }
            lemma_line_end_at(rest, e - p);
        }
        let le = if e < n && e > p && uevent.get_char(e - 1) == '\r' {
            e - 1
        } else {
            e
        };
        proof {
            if e < n && e > p {
                assert(rest[e - p - 1] == uevent@[e - 1]);
            }
            assert(first_line(rest) =~= uevent@.subrange(p as int, le as int));
        }
        if key_at(uevent, p, le, key) {
            let k = key.unicode_len();
            let v = uevent.substring_char(p + k + 1, le);
            let t = trim(v);
            proof {
                assert(uevent@.subrange(p as int, le as int).skip(k + 1) =~= v@);
            }
            return Some(t);
        }
        if e < n {
            proof {
                assert(rest_after_line(rest) =~= uevent@.skip(e + 1));
            }
            p = e + 1;
        } else {
            proof {
                assert(rest_after_line(rest) =~= Seq::<char>::empty());
                assert(field_spec(Seq::<char>::empty(), key@) is None);
            }
            return None;
        }
    }
    proof {
        assert(uevent@.skip(p as int) =~= Seq::<char>::empty());
    }
    None
}

/// The value of `c` as a digit in base `radix` (2 to 36), as `char::to_digit`
/// gives it.
pub open spec fn radix_digit(c: char, radix: u32) -> Option<int> {
    let v = if '0' <= c && c <= '9' {
        c as int - '0' as int
    } else if 'a' <= c && c <= 'z' {
        c as int - 'a' as int + 10
    } else if 'A' <= c && c <= 'Z' {
        c as int - 'A' as int + 10
    } else {
        radix as int
    };
    if v < radix {
        Some(v)
    } else {
        None
    }
}

/// The value of a string of digits in base `radix`, `None` if any is not
/// one.
pub open spec fn radix_digits(ds: Seq<char>, radix: u32) -> Option<int>
    decreases ds.len(),
{
    if ds.len() == 0 {
        Some(0)
    } else {
        match (radix_digits(ds.drop_last(), radix), radix_digit(ds.last(), radix)) {
            (Some(v), Some(d)) => Some(v * radix + d),
            _ => None,
        }
    }
}

/// A `u32` in base `radix`, as `u32::from_str_radix` reads it: an optional
/// `+`, then at least one digit, with a value that fits.
pub open spec fn parse_u32_spec(s: Seq<char>, radix: u32) -> Option<u32> {
    let ds = if s.len() > 0 && s[0] == '+' {
        s.drop_first()
    } else {
        s
    };
    if ds.len() == 0 {
        None
    } else {
        match radix_digits(ds, radix) {
            Some(v) => if v <= u32::MAX {
                Some(v as u32)
            } else {
                None
            },
            None => None,
        }
    }
}

/// A `u32` in base 16, as `u32::from_str_radix(s, 16)` reads it.
pub open spec fn parse_hex_u32(s: Seq<char>) -> Option<u32> {
    parse_u32_spec(s, 16)
}

proof fn lemma_radix_digits_nonneg(ds: Seq<char>, radix: u32)
    ensures
        radix_digits(ds, radix) matches Some(v) ==> v >= 0,
    decreases ds.len(),
{
    if ds.len() > 0 {
        lemma_radix_digits_nonneg(ds.drop_last(), radix);
    }
}

fn radix_digit_exec(c: char, radix: u32) -> (d: Option<u64>)
    requires
        2 <= radix <= 36,
    ensures
        d matches Some(x) ==> radix_digit(c, radix) == Some(x as int) && x < radix,
        d is None ==> radix_digit(c, radix) is None,
{
    let v: u32 = if '0' <= c && c <= '9' {
        c as u32 - '0' as u32
    } else if 'a' <= c && c <= 'z' {
        c as u32 - 'a' as u32 + 10
    } else if 'A' <= c && c <= 'Z' {
        c as u32 - 'A' as u32 + 10
    } else {
        radix
    };
    if v < radix {
        Some(v as u64)
    } else {
        None
    }
}

/// `u32::from_str_radix(s, 16)`, without the error's kind.
pub fn parse_hex(s: &str) -> (r: Option<u32>)
    ensures
        r == parse_hex_u32(s@),
{
    parse_u32(s, 16)
}

/// `u32::from_str_radix(s, radix)`, without the error's kind.
pub fn parse_u32(s: &str, radix: u32) -> (r: Option<u32>)
    requires
        2 <= radix <= 36,
    ensures
        r == parse_u32_spec(s@, radix),
{
    let n = s.unicode_len();
    let start: usize = if n > 0 && s.get_char(0) == '+' {
        1
    } else {
        0
    };
    let ghost ds = if s@.len() > 0 && s@[0] == '+' {
        s@.drop_first()
    } else {
        s@
    };
    assert(ds =~= s@.skip(start as int));
    if start >= n {
        return None;
    }
    let cap: u64 = 0x1_0000_0000;
    let mut acc: u64 = 0;
    let mut i = start;
    while i < n
        invariant
            start <= i <= n,
            n == s@.len(),
            ds == s@.skip(start as int),
            ds == (if s@.len() > 0 && s@[0] == '+' {
                s@.drop_first()
            } else {
                s@
            }),
            ds.len() > 0,
            2 <= radix <= 36,
            cap == 0x1_0000_0000u64,
            acc <= cap,
            radix_digits(ds.take(i - start), radix) matches Some(v) && (acc == if v < cap {
                v
            } else {
                cap as int
            }),
        decreases n - i,
    {
        let c = s.get_char(i);
        let ghost pre = ds.take(i - start);
        assert(ds.take(i + 1 - start).drop_last() =~= pre);
        assert(ds.take(i + 1 - start).last() == c);
        match radix_digit_exec(c, radix) {
            None => {
                proof {
                    assert(radix_digits(ds.take(i + 1 - start), radix) is None);
                    lemma_radix_none_extends(ds, (i + 1 - start) as int, radix);
                    assert(radix_digits(ds, radix) is None);
                }
                return None;
            },
            Some(d) => {
                proof {
                    lemma_radix_digits_nonneg(pre, radix);
                    assert(acc * radix + d <= 0x1_0000_0000u64 * 36 + 36) by (nonlinear_arith)
                        requires
                            acc <= 0x1_0000_0000u64,
                            radix <= 36,
                            d < radix,
                    ;
                    assert(radix_digits(ds.take(i + 1 - start), radix) == Some(radix_digits(pre, radix)->0 * radix + d));
                    let v = radix_digits(pre, radix)->0;
                    assert((if v * radix + d < cap { v * radix + d } else { cap as int }) == (if acc * radix + d < cap { acc * radix + d } else { cap as int })) by (nonlinear_arith)
                        requires
                            v >= 0,
                            cap == 0x1_0000_0000u64,
                            acc == (if v < cap { v } else { cap as int }),
                            radix >= 2,
                            d >= 0,
                    ;
                }
                let next = acc * (radix as u64) + d;
                acc = if next < cap {
                    next
                } else {
                    cap
                };
            },
        }
        i = i + 1;
    }
    assert(ds.take(n - start) =~= ds);
    if acc < cap {
        Some(acc as u32)
    } else {
        None
    }
}

proof fn lemma_radix_none_extends(ds: Seq<char>, k: int, radix: u32)
    requires
        0 <= k <= ds.len(),
        radix_digits(ds.take(k), radix) is None,
    ensures
        radix_digits(ds, radix) is None,
    decreases ds.len() - k,
{
    if k < ds.len() {
        assert(ds.take(k + 1).drop_last() =~= ds.take(k));
        lemma_radix_none_extends(ds, k + 1, radix);
    } else {
        assert(ds.take(k) =~= ds);
    }
}

/// Where the first `:`-separated piece of `s` ends.
pub open spec fn colon_end(s: Seq<char>) -> int
    decreases s.len(),
{
    if s.len() == 0 {
        0
    } else if s[0] == ':' {
        0
    } else {
        1 + colon_end(s.drop_first())
    }
}

proof fn lemma_colon_end(s: Seq<char>)
    ensures
        0 <= colon_end(s) <= s.len(),
        colon_end(s) < s.len() ==> s[colon_end(s)] == ':',
        forall|i: int| 0 <= i < colon_end(s) ==> s[i] != ':',
    decreases s.len(),
{
    if s.len() > 0 && s[0] != ':' {
        lemma_colon_end(s.drop_first());
        assert forall|i: int| 0 <= i < colon_end(s) implies s[i] != ':' by {
            if i > 0 {
                assert(s[i] == s.drop_first()[i - 1]);
            }
        }
    }
}

proof fn lemma_colon_end_at(s: Seq<char>, e: int)
    requires
        0 <= e <= s.len(),
        e < s.len() ==> s[e] == ':',
        forall|i: int| 0 <= i < e ==> s[i] != ':',
    ensures
        colon_end(s) == e,
    decreases s.len(),
{
    if s.len() > 0 && s[0] != ':' {
        let t = s.drop_first();
        assert forall|i: int| 0 <= i < e - 1 implies t[i] != ':' by {
            assert(t[i] == s[i + 1]);
        }
        if e - 1 < t.len() {
            assert(t[e - 1] == s[e]);
        }
        lemma_colon_end_at(t, e - 1);
    }
}

/// What follows the first `:` of `s`, if it has one.
pub open spec fn after_colon(s: Seq<char>) -> Option<Seq<char>> {
    if colon_end(s) < s.len() {
        Some(s.skip(colon_end(s) + 1))
    } else {
        None
    }
}

/// The USB ids in an `HID_ID` value, `bus:vendor:product` in hex: the second
/// and third `:`-separated pieces, trimmed, each a `u32` cut to 16 bits.
pub open spec fn hid_id_value(v: Seq<char>) -> Option<(u16, u16)> {
    match after_colon(v) {
        None => None,
        Some(r1) => match parse_hex_u32(trim_spec(r1.take(colon_end(r1)))) {
            None => None,
            Some(vendor) => {
                let r2 = if colon_end(r1) < r1.len() {
                    Some(r1.skip(colon_end(r1) + 1))
                } else {
                    None
                };
                match r2 {
                    None => None,
                    Some(r2) => match parse_hex_u32(trim_spec(r2.take(colon_end(r2)))) {
                        None => None,
                        Some(product) => Some((vendor as u16, product as u16)),
                    },
                }
            },
        },
    }
}

/// The USB ids a `uevent` file gives, from its `HID_ID` line.
pub open spec fn hid_id_spec(uevent: Seq<char>) -> Option<(u16, u16)> {
    match field_spec(uevent, "HID_ID"@) {
        None => None,
        Some(v) => hid_id_value(v),
    }
}

/// Index of the first `:` in `s@[from..]`, or the end.
fn colon_from(s: &str, from: usize) -> (e: usize)
    requires
        from <= s@.len(),
    ensures
        from <= e <= s@.len(),
        e - from == colon_end(s@.skip(from as int)),
{
    let n = s.unicode_len();
    let ghost t = s@.skip(from as int);
    let mut e = from;
    while e < n && s.get_char(e) != ':'
        invariant
            from <= e <= n,
            n == s@.len(),
            t == s@.skip(from as int),
            forall|i: int| 0 <= i < e - from ==> t[i] != ':',
        decreases n - e,
    {
        e = e + 1;
    }
    proof {
        if e < n {
            assert(t[e - from] == s@[e as int]);
        }
        lemma_colon_end_at(t, e - from);
    }
    e
}

/// `HID_ID=0003:000016C0:000005DF` gives `(0x16c0, 0x05df)`. The leading
/// piece is the bus, which nothing here selects on.
pub fn hid_id(uevent: &str) -> (r: Option<(u16, u16)>)
    ensures
        r == hid_id_spec(uevent@),
{
    let hid = "HID_ID";
    let v = match field(uevent, hid) {
        Some(v) => v,
        None => {
            return None;
        },
    };
    let v = v.as_str();
    let n = v.unicode_len();
    let c0 = colon_from(v, 0);
    assert(v@.skip(0) =~= v@);
    if c0 >= n {
        return None;
    }
    let ghost r1 = v@.skip(c0 + 1);
    let c1 = colon_from(v, c0 + 1);
    let vendor = match parse_hex(trim(v.substring_char(c0 + 1, c1)).as_str()) {
        Some(x) => x,
        None => {
            assert(v@.subrange(c0 + 1, c1 as int) =~= r1.take(colon_end(r1)));
            return None;
        },
    };
    assert(v@.subrange(c0 + 1, c1 as int) =~= r1.take(colon_end(r1)));
    if c1 >= n {
        return None;
    }
    let ghost r2 = v@.skip(c1 + 1);
    assert(r1.skip(colon_end(r1) + 1) =~= r2);
    let c2 = colon_from(v, c1 + 1);
    let product = match parse_hex(trim(v.substring_char(c1 + 1, c2)).as_str()) {
        Some(x) => x,
        None => {
            assert(v@.subrange(c1 + 1, c2 as int) =~= r2.take(colon_end(r2)));
            return None;
        },
    };
    assert(v@.subrange(c1 + 1, c2 as int) =~= r2.take(colon_end(r2)));
    Some((vendor as u16, product as u16))
}

/// The value of `key` in a `uevent` file, empty where there is none.
pub open spec fn field_or_empty(uevent: Seq<char>, key: Seq<char>) -> Seq<char> {
    match field_spec(uevent, key) {
        Some(v) => v,
        None => Seq::empty(),
    }
}

fn field_or_default(uevent: &str, key: &str) -> (s: String)
    ensures
        s@ == field_or_empty(uevent@, key@),
{
    match field(uevent, key) {
        Some(v) => v,
        None => String::new(),
    }
}

/// The entry a Linux `hidraw` node describes, from its name (`hidrawN`) and
/// its `uevent` file: none where the file gives no ids, or ids not wanted.
pub fn linux_entry(name: &str, uevent: &str, ids: &[(u16, u16)]) -> (r: Option<HidEntry>)
    ensures
        match hid_id_spec(uevent@) {
            None => r is None,
            Some((v, p)) => if id_wanted(ids@, v, p) {
                r matches Some(e) && {
                    &&& e.key@ == "/dev/"@ + name@
                    &&& e.vendor == v
                    &&& e.product == p
                    &&& e.name@ == field_or_empty(uevent@, "HID_NAME"@)
                    &&& e.serial@ == field_or_empty(uevent@, "HID_UNIQ"@)
                }
            } else {
                r is None
            },
        },
{
    let (vendor, product) = match hid_id(uevent) {
        Some(ids) => ids,
        None => {
            return None;
        },
    };
    if !wanted(ids, vendor, product) {
        return None;
    }
    let mut key = String::from_str("/dev/");
    key.append(name);
    Some(HidEntry {
        key,
        vendor,
        product,
        name: field_or_default(uevent, "HID_NAME"),
        serial: field_or_default(uevent, "HID_UNIQ"),
    })
}

/// Where a `hidrawN` node sorts: by `N` as a number, so that `hidraw2` comes
/// before `hidraw10`; a name that does not end in a number sorts last.
pub open spec fn hidraw_rank(name: Seq<char>) -> u32 {
    match parse_u32_spec(name.skip(6), 10) {
        Some(n) => n,
        None => u32::MAX,
    }
}

/// Whether a name in `/sys/class/hidraw` is a `hidraw` node.
pub open spec fn is_hidraw_name(name: Seq<char>) -> bool {
    name.len() >= 6 && name.take(6) == "hidraw"@
}

/// Where a `hidrawN` node sorts.
pub fn hidraw_index(name: &str) -> (r: u32)
    requires
        is_hidraw_name(name@),
    ensures
        r == hidraw_rank(name@),
{
    let n = name.unicode_len();
    match parse_u32(name.substring_char(6, n), 10) {
        Some(x) => x,
        None => u32::MAX,
    }
}

/// Whether `name` is a `hidraw` node.
pub fn hidraw_name(name: &str) -> (b: bool)
    ensures
        b == is_hidraw_name(name@),
{
    let p = "hidraw";
    proof {
        reveal_strlit("hidraw");
    }
    let n = name.unicode_len();
    if n < 6 {
        return false;
    }
    let mut i: usize = 0;
    while i < 6
        invariant
            n == name@.len(),
            n >= 6,
            p@ == "hidraw"@,
            p@.len() == 6,
            i <= 6,
            forall|j: int| 0 <= j < i ==> name@[j] == p@[j],
        decreases 6 - i,
    {
        if name.get_char(i) != p.get_char(i) {
            assert(name@.take(6)[i as int] != p@[i as int]);
            return false;
        }
        i = i + 1;
    }
    assert(name@.take(6) =~= p@);
    true
}

/// Where a node of rank `r` goes in `s`: right after the last entry that
/// sorts with or before it.
pub open spec fn rank_slot(s: Seq<String>, r: u32) -> int
    decreases s.len(),
{
    if s.len() == 0 {
        0
    } else if hidraw_rank(s.last()@) <= r {
        s.len() as int
    } else {
        rank_slot(s.drop_last(), r)
    }
}

/// The `hidraw` nodes among `names`, in the order they are listed in: by
/// number, so that the list an operator sees does not reorder itself once
/// there are ten of them; nodes that sort alike keep the order they came in.
pub open spec fn ordered_nodes(names: Seq<String>) -> Seq<String>
    decreases names.len(),
{
    if names.len() == 0 {
        Seq::empty()
    } else {
        let prev = ordered_nodes(names.drop_last());
        let x = names.last();
        if is_hidraw_name(x@) {
            prev.insert(rank_slot(prev, hidraw_rank(x@)), x)
        } else {
            prev
        }
    }
}

/// Whether every entry of `s` is a `hidraw` node.
pub open spec fn all_nodes(s: Seq<String>) -> bool {
    forall|q: int| 0 <= q < s.len() ==> is_hidraw_name((#[trigger] s[q])@)
}

proof fn lemma_rank_slot(s: Seq<String>, r: u32)
    ensures
        0 <= rank_slot(s, r) <= s.len(),
        forall|q: int| rank_slot(s, r) <= q < s.len() ==> hidraw_rank((#[trigger] s[q])@) > r,
        rank_slot(s, r) > 0 ==> hidraw_rank(s[rank_slot(s, r) - 1]@) <= r,
    decreases s.len(),
{
    if s.len() > 0 && hidraw_rank(s.last()@) > r {
        let g = s.drop_last();
        lemma_rank_slot(g, r);
        assert forall|q: int| rank_slot(s, r) <= q < s.len() implies hidraw_rank(
            (#[trigger] s[q])@,
        ) > r by {
            if q < g.len() {
                assert(s[q] == g[q]);
            }
        }
    }
}

/// The `hidraw` nodes among `names`, ordered as [`ordered_nodes`] says.
pub fn hidraw_order(names: &Vec<String>) -> (out: Vec<String>)
    ensures
        out@ == ordered_nodes(names@),
{
    let mut out: Vec<String> = Vec::new();
    let mut i: usize = 0;
    while i < names.len()
        invariant
            i <= names@.len(),
            out@ == ordered_nodes(names@.take(i as int)),
            all_nodes(out@),
        decreases names@.len() - i,
    {
        assert(names@.take(i + 1).drop_last() =~= names@.take(i as int));
        assert(names@.take(i + 1).last() == names@[i as int]);
        let name = names[i].clone();
        if hidraw_name(name.as_str()) {
            let r = hidraw_index(name.as_str());
            let ghost s = out@;
            let mut p: usize = out.len();
            assert(s.take(s.len() as int) =~= s);
            while p > 0
                invariant
                    p <= s.len(),
                    out@ == s,
                    all_nodes(s),
                    rank_slot(s, r) == rank_slot(s.take(p as int), r),
                ensures
                    p <= s.len(),
                    out@ == s,
                    rank_slot(s, r) == rank_slot(s.take(p as int), r),
                    p > 0 ==> hidraw_rank(s[p - 1]@) <= r,
                decreases p,
            {
                let above = hidraw_index(out[p - 1].as_str());
                if above <= r {
                    break;
                }
                assert(s.take(p as int).drop_last() =~= s.take(p - 1));
                p = p - 1;
            }
            proof {
                if p > 0 {
                    assert(s.take(p as int).last() == s[p - 1]);
                }
                assert(rank_slot(s, r) == p);
            }
            out.insert(p, name);
            proof {
                assert forall|q: int| 0 <= q < out@.len() implies is_hidraw_name(
                    (#[trigger] out@[q])@,
                ) by {
                    if q < p {
                        assert(out@[q] == s[q]);
                    } else if q > p {
                        assert(out@[q] == s[q - 1]);
                    }
                }
            }
        }
        i = i + 1;
    }
    assert(names@.take(names@.len() as int) =~= names@);
    out
}

/// The `hidraw` nodes among `names`, in the order they were listed.
pub open spec fn listed_nodes(names: Seq<String>) -> Seq<String> {
    names.filter(|n: String| is_hidraw_name(n@))
}

/// The nodes come out in number order, and they are exactly the `hidraw`
/// nodes that were listed, each as often as it was listed.
pub proof fn law_nodes_come_in_number_order(names: Seq<String>)
    ensures
        forall|i: int, j: int|
            0 <= i < j < ordered_nodes(names).len() ==> hidraw_rank(
                (#[trigger] ordered_nodes(names)[i])@,
            ) <= hidraw_rank((#[trigger] ordered_nodes(names)[j])@),
        ordered_nodes(names).to_multiset() == listed_nodes(names).to_multiset(),
    decreases names.len(),
{
    reveal_with_fuel(Seq::filter, 1);
    broadcast use vstd::seq_lib::group_to_multiset_ensures;

    if names.len() > 0 {
        let g = names.drop_last();
        let x = names.last();
        law_nodes_come_in_number_order(g);
        let prev = ordered_nodes(g);
        if is_hidraw_name(x@) {
            let r = hidraw_rank(x@);
            let p = rank_slot(prev, r);
            lemma_rank_slot(prev, r);
            let o = prev.insert(p, x);
            assert(o.len() == prev.len() + 1);
            assert forall|i: int, j: int| 0 <= i < j < o.len() implies hidraw_rank(
                (#[trigger] o[i])@,
            ) <= hidraw_rank((#[trigger] o[j])@) by {
                if j < p {
                    assert(o[i] == prev[i] && o[j] == prev[j]);
                } else if j == p {
                    assert(o[i] == prev[i]);
                    if i < p - 1 {
                        assert(hidraw_rank(prev[i]@) <= hidraw_rank(prev[p - 1]@));
                    }
                } else if i < p {
                    assert(o[i] == prev[i] && o[j] == prev[j - 1]);
                    if i < j - 1 {
                        assert(hidraw_rank(prev[i]@) <= hidraw_rank(prev[j - 1]@));
                    }
                } else if i == p {
                    assert(o[j] == prev[j - 1]);
                } else {
                    assert(o[i] == prev[i - 1] && o[j] == prev[j - 1]);
                }
            }
            vstd::seq_lib::to_multiset_insert(prev, p, x);
            vstd::seq_lib::to_multiset_build(listed_nodes(g), x);
            assert(listed_nodes(names) == listed_nodes(g).push(x));
        } else {
            assert(listed_nodes(names) == listed_nodes(g));
        }
    }
}

// ── macOS input reports ────────────────────────────────────────────────────

/// How many unread input reports a macOS device keeps: enough to ride out a
/// slow reader without growing without bound.
pub const INBOX_MAX: usize = 256;

/// What the input-report queue holds after `reports` arrive at `queue`: an
/// empty report is ignored, and a full queue drops its oldest to make room.
pub open spec fn inbox_after(queue: Seq<Seq<u8>>, reports: Seq<Seq<u8>>) -> Seq<Seq<u8>>
    decreases reports.len(),
{
    if reports.len() == 0 {
        queue
    } else {
        let q = inbox_after(queue, reports.drop_last());
        let r = reports.last();
        if r.len() == 0 {
            q
        } else if q.len() >= INBOX_MAX {
            q.drop_first().push(r)
        } else {
            q.push(r)
        }
    }
}

/// The non-empty reports among `reports`, in order.
pub open spec fn nonempty_reports(reports: Seq<Seq<u8>>) -> Seq<Seq<u8>> {
    reports.filter(|r: Seq<u8>| r.len() > 0)
}

/// Input reports a macOS device delivered and nobody has read yet, and
/// whether the device has gone.
pub struct Inbox {
    reports: Vec<Vec<u8>>,
    removed: bool,
}

impl Inbox {
    #[verifier::type_invariant]
    spec fn bounded(&self) -> bool {
        self.reports@.len() <= INBOX_MAX
    }

    /// The reports waiting, oldest first.
    pub closed spec fn waiting(&self) -> Seq<Seq<u8>> {
        self.reports@.map_values(|r: Vec<u8>| r@)
    }

    /// Whether the device has gone.
    pub closed spec fn is_removed(&self) -> bool {
        self.removed
    }

    pub fn new() -> (b: Inbox)
        ensures
            b.waiting() == Seq::<Seq<u8>>::empty(),
            !b.is_removed(),
    {
        let b = Inbox { reports: Vec::new(), removed: false };
        assert(b.waiting() =~= Seq::<Seq<u8>>::empty());
        b
    }

    /// A report arrived (see [`inbox_after`]).
    pub fn on_report(&mut self, bytes: &[u8])
        ensures
            final(self).waiting() == inbox_after(old(self).waiting(), seq![bytes@]),
            final(self).waiting().len() <= INBOX_MAX,
            final(self).is_removed() == old(self).is_removed(),
    {
        proof {
            use_type_invariant(&*self);
            assert(seq![bytes@].drop_last() =~= Seq::<Seq<u8>>::empty());
            assert(seq![bytes@].last() == bytes@);
            assert(inbox_after(self.waiting(), Seq::<Seq<u8>>::empty()) == self.waiting());
        }
        if bytes.len() == 0 {
            return;
        }
        let ghost before = self.waiting();
        let ghost items = self.reports@;
        let mut reports: Vec<Vec<u8>> = Vec::new();
        std::mem::swap(&mut reports, &mut self.reports);
        if reports.len() >= INBOX_MAX {
            reports.remove(0);
        }
        let copy = leading_bytes(bytes, bytes.len());
        assert(copy@ =~= bytes@);
        reports.push(copy);
        std::mem::swap(&mut reports, &mut self.reports);
        proof {
            if items.len() >= INBOX_MAX {
                assert(self.reports@ =~= items.drop_first().push(copy));
            } else {
                assert(self.reports@ =~= items.push(copy));
            }
            if before.len() >= INBOX_MAX {
                assert(self.waiting() =~= before.drop_first().push(bytes@));
            } else {
                assert(self.waiting() =~= before.push(bytes@));
            }
        }
    }

    /// Whether the device has gone.
    pub fn removed(&self) -> (b: bool)
        ensures
            b == self.is_removed(),
    {
        self.removed
    }

    /// The device went away.
    pub fn on_removal(&mut self)
        ensures
            final(self).is_removed(),
            final(self).waiting() == old(self).waiting(),
    {
        proof {
            use_type_invariant(&*self);
        }
        self.removed = true;
    }

    /// The oldest report not yet read, as much of it as fits in `body_len`
    /// bytes.
    pub fn take(&mut self, body_len: usize) -> (r: Option<Vec<u8>>)
        ensures
            old(self).waiting().len() == 0 ==> r is None && final(self).waiting() == old(
                self,
            ).waiting(),
            old(self).waiting().len() > 0 ==> {
                let first = old(self).waiting()[0];
                &&& r matches Some(v) && v@ == first.take(
                    if first.len() < body_len {
                        first.len() as int
                    } else {
                        body_len as int
                    },
                )
                &&& final(self).waiting() == old(self).waiting().drop_first()
            },
            final(self).is_removed() == old(self).is_removed(),
    {
        proof {
            use_type_invariant(&*self);
        }
        if self.reports.len() == 0 {
            return None;
        }
        let ghost before = self.waiting();
        let mut reports: Vec<Vec<u8>> = Vec::new();
        std::mem::swap(&mut reports, &mut self.reports);
        let first = reports.remove(0);
        std::mem::swap(&mut reports, &mut self.reports);
        assert(self.waiting() =~= before.drop_first());
        let k = if first.len() < body_len {
            first.len()
        } else {
            body_len
        };
        Some(leading_bytes(first.as_slice(), k))
    }
}

/// The first `k` bytes of `bytes`.
fn leading_bytes(bytes: &[u8], k: usize) -> (out: Vec<u8>)
    requires
        k <= bytes@.len(),
    ensures
        out@ == bytes@.take(k as int),
{
    let mut out: Vec<u8> = Vec::new();
    let mut i: usize = 0;
    while i < k
        invariant
            k <= bytes@.len(),
            i <= k,
            out@ == bytes@.take(i as int),
        decreases k - i,
    {
        out.push(bytes[i]);
        i = i + 1;
        assert(out@ =~= bytes@.take(i as int));
    }
    out
}

/// The queue never holds more than [`INBOX_MAX`] reports, and what it holds
/// is the newest of what arrived: the non-empty reports, after what was
/// already waiting, less as many of the oldest as it takes to fit.
pub proof fn law_the_inbox_keeps_the_newest_reports(queue: Seq<Seq<u8>>, reports: Seq<Seq<u8>>)
    requires
        queue.len() <= INBOX_MAX,
    ensures
        inbox_after(queue, reports).len() <= INBOX_MAX,
        ({
            let all = queue + nonempty_reports(reports);
            inbox_after(queue, reports) == all.skip(
                if all.len() > INBOX_MAX {
                    all.len() - INBOX_MAX
                } else {
                    0
                },
            )
        }),
    decreases reports.len(),
{
    reveal_with_fuel(Seq::filter, 1);
    if reports.len() > 0 {
        let g = reports.drop_last();
        let r = reports.last();
        law_the_inbox_keeps_the_newest_reports(queue, g);
        let q = inbox_after(queue, g);
        let allg = queue + nonempty_reports(g);
        let dg = if allg.len() > INBOX_MAX {
            allg.len() - INBOX_MAX
        } else {
            0
        };
        assert(q == allg.skip(dg));
        if r.len() == 0 {
            assert(nonempty_reports(reports) == nonempty_reports(g));
        } else {
            assert(nonempty_reports(reports) == nonempty_reports(g).push(r));
            let all = queue + nonempty_reports(reports);
            assert(all =~= allg.push(r));
            if q.len() >= INBOX_MAX {
                assert(q.drop_first().push(r) =~= all.skip(all.len() - INBOX_MAX));
            } else {
                assert(q.push(r) =~= all.skip(
                    if all.len() > INBOX_MAX {
                        all.len() - INBOX_MAX
                    } else {
                        0
                    },
                ));
            }
        }
    }
}

// ── Windows device paths and strings ───────────────────────────────────────

/// Where a run of UTF-16 units ends: at its first zero unit, or at the end.
pub open spec fn wide_end(units: Seq<u16>) -> int
    decreases units.len(),
{
    if units.len() == 0 {
        0
    } else if units[0] == 0 {
        0
    } else {
        1 + wide_end(units.drop_first())
    }
}

/// The units of `units` before its first zero.
pub open spec fn wide_text(units: Seq<u16>) -> Seq<u16> {
    units.take(wide_end(units))
}

/// The little-endian UTF-16 units of `bytes`, a trailing odd byte dropped.
pub open spec fn le_units(bytes: Seq<u8>) -> Seq<u16> {
    Seq::new(bytes.len() / 2, |i: int| (bytes[2 * i] + 256 * bytes[2 * i + 1]) as u16)
}

/// The device path in an interface detail buffer: UTF-16 after the
/// four-byte size field, up to its terminating zero.
pub open spec fn interface_path_units(detail: Seq<u8>) -> Seq<u16> {
    wide_text(le_units(detail.skip(4)))
}

proof fn lemma_wide_end_at(units: Seq<u16>, e: int)
    requires
        0 <= e <= units.len(),
        e < units.len() ==> units[e] == 0,
        forall|i: int| 0 <= i < e ==> units[i] != 0,
    ensures
        wide_end(units) == e,
    decreases units.len(),
{
    if units.len() > 0 && units[0] != 0 {
        let t = units.drop_first();
        assert forall|i: int| 0 <= i < e - 1 implies t[i] != 0 by {
            assert(t[i] == units[i + 1]);
        }
        if e - 1 < t.len() {
            assert(t[e - 1] == units[e]);
        }
        lemma_wide_end_at(t, e - 1);
    }
}

/// The text of a NUL-terminated UTF-16 buffer, as Windows fills one.
pub fn from_wide(buf: &[u16]) -> (s: String)
    ensures
        s@ == utf16_lossy(wide_text(buf@)),
{
    let mut units: Vec<u16> = Vec::new();
    let mut i: usize = 0;
    while i < buf.len() && buf[i] != 0
        invariant
            i <= buf@.len(),
            units@ == buf@.take(i as int),
            forall|k: int| 0 <= k < i ==> buf@[k] != 0,
        decreases buf@.len() - i,
    {
        units.push(buf[i]);
        i = i + 1;
        assert(units@ =~= buf@.take(i as int));
    }
    proof {
        lemma_wide_end_at(buf@, i as int);
    }
    from_utf16_lossy(units.as_slice())
}

/// The device path in a `SP_DEVICE_INTERFACE_DETAIL_DATA_W` buffer, which
/// holds at least its four-byte size field.
pub fn interface_path(detail: &[u8]) -> (s: String)
    requires
        detail@.len() >= 4,
    ensures
        s@ == utf16_lossy(interface_path_units(detail@)),
{
    let ghost body = detail@.skip(4);
    let ghost all = le_units(body);
    let pairs = (detail.len() - 4) / 2;
    assert(2 * pairs + 4 <= detail@.len()) by (nonlinear_arith)
        requires
            pairs == (detail@.len() - 4) / 2,
            detail@.len() >= 4,
    ;
    let mut units: Vec<u16> = Vec::new();
    let mut i: usize = 0;
    while i < pairs
        invariant
            detail@.len() >= 4,
            body == detail@.skip(4),
            all == le_units(body),
            pairs == all.len(),
            2 * pairs + 4 <= detail@.len(),
            i <= pairs,
            units@ == all.take(i as int),
            forall|k: int| 0 <= k < i ==> all[k] != 0,
        ensures
            i <= pairs,
            units@ == all.take(i as int),
            forall|k: int| 0 <= k < i ==> all[k] != 0,
            i < pairs ==> all[i as int] == 0,
        decreases pairs - i,
    {
        assert(2 * i + 6 <= 2 * pairs + 4);
        assert(detail@.len() == detail.len());
        let j: usize = 4 + 2 * i;
        let lo = detail[j];
        let hi = detail[j + 1];
        let unit: u16 = lo as u16 + (hi as u16) * 256;
        assert(body[2 * i as int] == lo && body[2 * i + 1] == hi);
        assert(all[i as int] == unit);
        if unit == 0 {
            break;
        }
        units.push(unit);
        i = i + 1;
        assert(units@ =~= all.take(i as int));
    }
    proof {
        lemma_wide_end_at(all, i as int);
    }
    from_utf16_lossy(units.as_slice())
}

/// The entry for a Windows HID interface at `path` with these ids, and the
/// product and serial strings where the device answered for them. An
/// interface with no path, or not one the caller asked for, has none.
pub fn windows_entry(
    path: String,
    vendor: u16,
    product: u16,
    name: Option<&[u16]>,
    serial: Option<&[u16]>,
    ids: &[(u16, u16)],
) -> (r: Option<HidEntry>)
    ensures
        path@.len() == 0 || !id_wanted(ids@, vendor, product) ==> r is None,
        path@.len() > 0 && id_wanted(ids@, vendor, product) ==> (r matches Some(e) && {
            &&& e.key@ == path@
            &&& e.vendor == vendor
            &&& e.product == product
            &&& e.name@ == match name {
                Some(u) => utf16_lossy(wide_text(u@)),
                None => Seq::<char>::empty(),
            }
            &&& e.serial@ == match serial {
                Some(u) => utf16_lossy(wide_text(u@)),
                None => Seq::<char>::empty(),
            }
        }),
{
    if path.as_str().unicode_len() == 0 || !wanted(ids, vendor, product) {
        return None;
    }
    let name = match name {
        Some(u) => from_wide(u),
        None => String::new(),
    };
    let serial = match serial {
        Some(u) => from_wide(u),
        None => String::new(),
    };
    Some(HidEntry { key: path, vendor, product, name, serial })
}

// ── macOS device entries ───────────────────────────────────────────────────

/// The key a macOS device goes by: its IOKit registry entry id, printed in
/// decimal. Stable for as long as the device stays plugged in.
pub fn registry_key(id: u64) -> (key: String)
    ensures
        key@ == decimal(id as nat),
{
    let mut key = String::new();
    push_decimal_u64(&mut key, id);
    assert(key@ =~= decimal(id as nat));
    key
}

/// Whether `key` is the key of the device with registry entry id `id`.
pub fn names_device(key: &str, id: u64) -> (b: bool)
    ensures
        b == (key@ == decimal(id as nat)),
{
    let want = registry_key(id);
    same_text(key, want.as_str())
}

/// The entry for a macOS device with these properties, read as numbers and
/// strings where the device has them, and its registry entry id. One without
/// vendor and product ids, not one the caller asked for, or without a
/// registry entry id (its key) has none. The ids are the low 16 bits of the
/// numbers the device reports.
pub fn mac_entry(
    vendor: Option<i32>,
    product: Option<i32>,
    registry_id: Option<u64>,
    name: Option<String>,
    serial: Option<String>,
    ids: &[(u16, u16)],
) -> (r: Option<HidEntry>)
    ensures
        match (vendor, product, registry_id) {
            (Some(v), Some(p), Some(id)) => if id_wanted(ids@, v as u16, p as u16) {
                r matches Some(e) && {
                    &&& e.key@ == decimal(id as nat)
                    &&& e.vendor == v as u16
                    &&& e.product == p as u16
                    &&& e.name@ == match name {
                        Some(t) => t@,
                        None => Seq::<char>::empty(),
                    }
                    &&& e.serial@ == match serial {
                        Some(t) => t@,
                        None => Seq::<char>::empty(),
                    }
                }
            } else {
                r is None
            },
            _ => r is None,
        },
{
    let (v, p) = match (vendor, product) {
        (Some(v), Some(p)) => (v as u16, p as u16),
        _ => {
            return None;
        },
    };
    if !wanted(ids, v, p) {
        return None;
    }
    let id = match registry_id {
        Some(id) => id,
        None => {
            return None;
        },
    };
    let key = registry_key(id);
    let name = match name {
        Some(t) => t,
        None => String::new(),
    };
    let serial = match serial {
        Some(t) => t,
        None => String::new(),
    };
    Some(HidEntry { key, vendor: v, product: p, name, serial })
}

} // verus!
