//! The dataref browser: which datarefs it can show, how often it reads
//! them, and how it renders arrays of values.

use vstd::prelude::*;

use crate::targets::elapsed;

verus! {

/// The type bits of a dataref as X-Plane reports them.
#[derive(Clone, Copy, Debug, PartialEq, Eq, Structural)]
pub struct DatarefType {
    bits: i32,
}

/// Whether every bit of `flag` is set in `bits`.
pub open spec fn has_flag(bits: i32, flag: i32) -> bool {
    bits & flag == flag
}

impl DatarefType {
    /// Data of a type the current XPLM doesn't do.
    pub const UNKNOWN: i32 = 0;
    /// A single 4-byte integer, native endian.
    pub const INT: i32 = 1;
    /// A single 4-byte float, native endian.
    pub const FLOAT: i32 = 2;
    /// A single 8-byte double, native endian.
    pub const DOUBLE: i32 = 4;
    /// An array of 4-byte floats, native endian.
    pub const FLOAT_ARRAY: i32 = 8;
    /// An array of 4-byte integers, native endian.
    pub const INT_ARRAY: i32 = 16;
    /// A variable block of data.
    pub const DATA: i32 = 32;
    /// Every defined bit.
    pub const ALL: i32 = 63;

    /// The raw bits.
    pub closed spec fn spec_bits(&self) -> i32 {
        self.bits
    }

    /// The type with these bits, when every set bit is a defined flag.
    pub fn from_bits(bits: i32) -> (r: Option<DatarefType>)
        ensures
            r is Some <==> 0 <= bits < 64,
            r matches Some(t) ==> t.spec_bits() == bits,
    {
        let undefined = bits & !Self::ALL;
        assert(bits & !63i32 == 0 <==> 0 <= bits < 64) by (bit_vector);
        if undefined == 0 {
            Some(DatarefType { bits })
        } else {
            None
        }
    }

    /// The raw bits.
    pub fn bits(&self) -> (r: i32)
        ensures
            r == self.spec_bits(),
            0 <= r < 64,
    {
        proof {
            use_type_invariant(self);
        }
        self.bits
    }

    #[verifier::type_invariant]
    spec fn inv(self) -> bool {
        0 <= self.bits < 64
    }

    /// Whether every bit of `flag` is set.
    pub fn contains(&self, flag: i32) -> (r: bool)
        ensures
            r == has_flag(self.spec_bits(), flag),
    {
        self.bits & flag == flag
    }
}

/// The kinds of dataref the browser reads.
#[derive(Clone, Copy, Debug, PartialEq, Eq, Structural)]
pub enum DataKind {
    Int,
    Float,
    Double,
    FloatArray,
    IntArray,
}

/// The kind read for a dataref with these type bits: the first of double,
/// float, int, float array and int array whose bit is set.
pub open spec fn kind_for(bits: i32) -> Option<DataKind> {
    if has_flag(bits, DatarefType::DOUBLE) {
        Some(DataKind::Double)
    } else if has_flag(bits, DatarefType::FLOAT) {
        Some(DataKind::Float)
    } else if has_flag(bits, DatarefType::INT) {
        Some(DataKind::Int)
    } else if has_flag(bits, DatarefType::FLOAT_ARRAY) {
        Some(DataKind::FloatArray)
    } else if has_flag(bits, DatarefType::INT_ARRAY) {
        Some(DataKind::IntArray)
    } else {
        None
    }
}

/// The kind to read a dataref of type `dt` as; `None` when the browser does
/// not support the type.
pub fn data_kind(dt: DatarefType) -> (r: Option<DataKind>)
    ensures
        r == kind_for(dt.spec_bits()),
        dt.spec_bits() & 7 == 0 ==> (r == Some(DataKind::FloatArray) <==> dt.spec_bits() & 8 == 8),
        dt.spec_bits() & 15 == 0 ==> (r == Some(DataKind::IntArray) <==> dt.spec_bits() & 16 == 16),
{
    proof {
        lemma_array_kinds(dt.spec_bits());
    }
    if dt.contains(DatarefType::DOUBLE) {
        Some(DataKind::Double)
    } else if dt.contains(DatarefType::FLOAT) {
        Some(DataKind::Float)
    } else if dt.contains(DatarefType::INT) {
        Some(DataKind::Int)
    } else if dt.contains(DatarefType::FLOAT_ARRAY) {
        Some(DataKind::FloatArray)
    } else if dt.contains(DatarefType::INT_ARRAY) {
        Some(DataKind::IntArray)
    } else {
        None
    }
}

impl DataKind {
    /// The Rust type name shown in the browser's type column.
    pub fn label(&self) -> (r: &'static str)
        ensures
            r@ == match *self {
                DataKind::Int => "i32"@,
                DataKind::Float => "f32"@,
                DataKind::Double => "f64"@,
                DataKind::FloatArray => "[f32]"@,
                DataKind::IntArray => "[i32]"@,
            },
    {
        match self {
            DataKind::Int => "i32",
            DataKind::Float => "f32",
            DataKind::Double => "f64",
            DataKind::FloatArray => "[f32]",
            DataKind::IntArray => "[i32]",
        }
    }
}

/// A value shown in the browser is read again at most once a second.
pub const REFRESH_PERIOD: u128 = 1_000_000_000;

/// Whether a value read at `updated` is to be read again at `now`.
pub fn refresh_due(updated: u128, now: u128) -> (r: bool)
    ensures
        r == (elapsed(updated, now) >= REFRESH_PERIOD),
{
    let since = if now >= updated {
        now - updated
    } else {
        0
    };
    since >= REFRESH_PERIOD
}


/// The decimal digit character for `d`.
pub open spec fn digit_char(d: int) -> char {
    (48 + d) as char
}

/// The decimal text of a natural number, most significant digit first, with
/// no leading zero.
pub open spec fn nat_text(n: nat) -> Seq<char>
    decreases n,
{
    if n < 10 {
        seq![digit_char(n as int)]
    } else {
        nat_text(n / 10) + seq![digit_char((n % 10) as int)]
    }
}

/// The decimal text of an integer, with a minus sign when it is negative.
pub open spec fn int_text(v: int) -> Seq<char> {
    if v < 0 {
        seq!['-'] + nat_text((-v) as nat)
    } else {
        nat_text(v as nat)
    }
}

/// The number a text of decimal digits stands for.
pub open spec fn digits_value(s: Seq<char>) -> int
    decreases s.len(),
{
    if s.len() == 0 {
        0
    } else {
        digits_value(s.drop_last()) * 10 + (s.last() as int - 48)
    }
}

/// Whether every character is a decimal digit.
pub open spec fn all_digits(s: Seq<char>) -> bool {
    forall|i: int| 0 <= i < s.len() ==> '0' <= #[trigger] s[i] <= '9'
}

/// The decimal text of a number consists of digits only, is never empty,
/// and reads back as the number.
pub proof fn lemma_nat_text_roundtrip(n: nat)
    ensures
        all_digits(nat_text(n)),
        nat_text(n).len() > 0,
        digits_value(nat_text(n)) == n,
    decreases n,
{
    if n >= 10 {
        lemma_nat_text_roundtrip(n / 10);
        let t = nat_text(n);
        assert(t.drop_last() =~= nat_text(n / 10));
        assert(t.last() == digit_char((n % 10) as int));
        assert(digit_char((n % 10) as int) as int == 48 + n % 10);
        assert(digits_value(t) == digits_value(t.drop_last()) * 10 + (t.last() as int - 48));
        assert(n == (n / 10) * 10 + n % 10) by (nonlinear_arith);
    } else {
        assert(nat_text(n).drop_last() =~= Seq::<char>::empty());
        assert(digit_char(n as int) as int == 48 + n);
        let t = nat_text(n);
        assert(digits_value(t.drop_last()) == 0);
        assert(digits_value(t) == digits_value(t.drop_last()) * 10 + (t.last() as int - 48));
    }
}

fn digit_str(d: u64) -> (r: &'static str)
    requires
        d < 10,
    ensures
        r@ == seq![digit_char(d as int)],
{
    proof {
        reveal_strlit("0");
        reveal_strlit("1");
        reveal_strlit("2");
        reveal_strlit("3");
        reveal_strlit("4");
        reveal_strlit("5");
        reveal_strlit("6");
        reveal_strlit("7");
        reveal_strlit("8");
        reveal_strlit("9");
    }
    let r = match d {
        0 => "0",
        1 => "1",
        2 => "2",
        3 => "3",
        4 => "4",
        5 => "5",
        6 => "6",
        7 => "7",
        8 => "8",
        _ => "9",
    };
    assert(r@ =~= seq![digit_char(d as int)]);
    r
}

/// The decimal text of an unsigned number.
pub fn render_u64(n: u64) -> (r: String)
    ensures
        r@ == nat_text(n as nat),
    decreases n,
{
    let mut s = if n >= 10 {
        render_u64(n / 10)
    } else {
        String::new()
    };
    s.append(digit_str(n % 10));
    proof {
        if n < 10 {
            assert(s@ =~= nat_text(n as nat));
        }
    }
    s
}

/// The decimal text of a signed number, as `Display` and `Debug` write it.
pub fn render_i32(v: i32) -> (r: String)
    ensures
        r@ == int_text(v as int),
{
    if v < 0 {
        let magnitude: i64 = -(v as i64);
        let mut s = String::new();
        s.append("-");
        let digits = render_u64(magnitude as u64);
        s.append(digits.as_str());
        proof {
            reveal_strlit("-");
            assert(s@ =~= int_text(v as int));
        }
        s
    } else {
        render_u64(v as u64)
    }
}


/// The texts joined with `sep` between neighbours.
pub open spec fn join(items: Seq<Seq<char>>, sep: Seq<char>) -> Seq<char>
    decreases items.len(),
{
    if items.len() == 0 {
        Seq::empty()
    } else if items.len() == 1 {
        items[0]
    } else {
        join(items.drop_last(), sep) + sep + items.last()
    }
}

/// The contents of each string.
pub open spec fn texts(v: Seq<String>) -> Seq<Seq<char>> {
    v.map_values(|s: String| s@)
}

/// How the browser shows an array of `total` values: all of them, in their
/// `Debug` form, when there are at most ten; otherwise the first ten in
/// their `Display` form and how many more there are.
pub open spec fn summary_text(debug: Seq<Seq<char>>, display: Seq<Seq<char>>, total: nat) -> Seq<
    char,
> {
    if total <= 10 {
        "["@ + join(debug, ", "@) + "]"@
    } else {
        "["@ + join(display, ", "@) + ", ... ("@ + nat_text((total - 10) as nat) + " more)]"@
    }
}

fn join_strings(items: &Vec<String>, sep: &str) -> (r: String)
    ensures
        r@ == join(texts(items@), sep@),
{
    let mut r = String::new();
    let n = items.len();
    let ghost all = texts(items@);
    let mut i: usize = 0;
    while i < n
        invariant
            n == items@.len(),
            i <= n,
            all == texts(items@),
            r@ == join(all.take(i as int), sep@),
        decreases n - i,
    {
        if i != 0 {
            r.append(sep);
        }
        r.append(items[i].as_str());
        proof {
            assert(all.take((i + 1) as int).drop_last() =~= all.take(i as int));
            if i == 0 {
                assert(r@ =~= join(all.take(1), sep@));
            }
        }
        i = i + 1;
    }
    assert(all.take(n as int) =~= all);
    r
}

/// Renders an array of `total` values for the browser, given the `Debug`
/// and the `Display` texts of its first values.
pub fn summarize(debug_texts: &Vec<String>, display_texts: &Vec<String>, total: usize) -> (r: String)
    ensures
        r@ == summary_text(texts(debug_texts@), texts(display_texts@), total as nat),
{
    let mut r = String::new();
    r.append("[");
    if total <= 10 {
        let body = join_strings(debug_texts, ", ");
        r.append(body.as_str());
        r.append("]");
    } else {
        let body = join_strings(display_texts, ", ");
        r.append(body.as_str());
        r.append(", ... (");
        let more = render_u64((total - 10) as u64);
        r.append(more.as_str());
        r.append(" more)]");
    }
    r
}

/// The texts of the first `min(len, 10)` values.
pub open spec fn first_int_texts(values: Seq<i32>) -> Seq<Seq<char>> {
    let k = if values.len() <= 10 {
        values.len() as int
    } else {
        10
    };
    values.take(k).map_values(|v: i32| int_text(v as int))
}

/// Renders an array of integers for the browser.
pub fn summarize_ints(values: &Vec<i32>) -> (r: String)
    ensures
        r@ == summary_text(first_int_texts(values@), first_int_texts(values@), values@.len()),
{
    let n = values.len();
    let k = if n <= 10 {
        n
    } else {
        10
    };
    let mut rendered: Vec<String> = Vec::new();
    let mut i: usize = 0;
    while i < k
        invariant
            k <= n,
            n == values@.len(),
            k == (if n <= 10 { n } else { 10 }),
            i <= k,
            texts(rendered@) == values@.take(i as int).map_values(|v: i32| int_text(v as int)),
        decreases k - i,
    {
        let t = render_i32(values[i]);
        let ghost before = rendered@;
        rendered.push(t);
        proof {
            let want = values@.take(i + 1).map_values(|v: i32| int_text(v as int));
            assert(texts(before) =~= values@.take(i as int).map_values(|v: i32| int_text(v as int)));
            assert forall|j: int| 0 <= j < i + 1 implies #[trigger] texts(rendered@)[j] == want[j] by {
                if j < i {
                    assert(texts(before)[j] == texts(rendered@)[j]);
                }
            }
            assert(texts(rendered@) =~= want);
        }
        i = i + 1;
    }
    summarize(&rendered, &rendered, n)
}


/// When none of the double, float and int bits is set, the kind is the
/// float array exactly when that bit is set, and the int array exactly when
/// the int-array bit is the only one of the five that is set.
pub proof fn lemma_array_kinds(bits: i32)
    ensures
        bits & 7 == 0 ==> (kind_for(bits) == Some(DataKind::FloatArray) <==> bits & 8 == 8),
        bits & 15 == 0 ==> (kind_for(bits) == Some(DataKind::IntArray) <==> bits & 16 == 16),
        bits & 7 == 0 && bits & 8 == 8 ==> kind_for(bits) != Some(DataKind::IntArray),
        bits & 4 == 0 && bits & 2 == 2 ==> kind_for(bits) == Some(DataKind::Float),
        bits & 6 == 0 && bits & 1 == 1 ==> kind_for(bits) == Some(DataKind::Int),
{
    assert(bits & 7 == 0 ==> (bits & 4 != 4 && bits & 2 != 2 && bits & 1 != 1)) by (bit_vector);
    assert(bits & 15 == 0 ==> (bits & 4 != 4 && bits & 2 != 2 && bits & 1 != 1 && bits & 8 != 8)) by (bit_vector);
    assert(bits & 4 == 0 ==> bits & 4 != 4) by (bit_vector);
    assert(bits & 6 == 0 ==> (bits & 4 != 4 && bits & 2 != 2)) by (bit_vector);
}

/// The browser reads a dataref unless its type bits name none of the five
/// kinds it knows; a double bit always wins, then float, then int.
pub proof fn lemma_kind_priority(bits: i32)
    requires
        0 <= bits < 64,
    ensures
        kind_for(bits) is None <==> bits & 31 == 0,
        has_flag(bits, DatarefType::DOUBLE) ==> kind_for(bits) == Some(DataKind::Double),
        !has_flag(bits, DatarefType::DOUBLE) && has_flag(bits, DatarefType::FLOAT) ==> kind_for(bits) == Some(DataKind::Float),
        kind_for(bits | DatarefType::DOUBLE) == Some(DataKind::Double),
{
    assert(bits & 31 == 0 <==> !(bits & 4 == 4) && !(bits & 2 == 2) && !(bits & 1 == 1) && !(bits & 8 == 8) && !(bits & 16 == 16)) by (bit_vector);
    assert((bits | 4) & 4 == 4) by (bit_vector);
}

} // verus!
