use vstd::prelude::*;
use vstd::string::StrSliceExecFns;

use crate::vectors::Vector3;

verus! {

/// Classification of a voxel of a structure template.
#[derive(Debug, Clone)]
pub enum VoxelKind {
    /// Nothing is there.
    Empty,
    /// A solid part of the structure.
    Obstacle,
    /// Where a port ends, with its selector text `(i|o)-<ordinal>-<bit>`.
    PortMarker(String),
}

/// A voxel of a template, at a position local to the template's origin.
#[derive(Debug, Clone)]
pub struct TemplateVoxel {
    pub pos: Vector3,
    pub kind: VoxelKind,
}

/// The footprint of a node type: its size along x, y and z and its
/// classified voxels.
#[derive(Debug, Clone)]
pub struct StructureTemplate {
    pub size: [u32; 3],
    pub voxels: Vec<TemplateVoxel>,
}

/// Largest template size along any axis.
pub const SIZE_LIMIT: u32 = 1024;

/// A template whose size is at most `SIZE_LIMIT` along each axis and whose
/// voxels all lie inside its size.
pub open spec fn template_ok(t: StructureTemplate) -> bool {
    &&& t.size[0] <= SIZE_LIMIT && t.size[1] <= SIZE_LIMIT && t.size[2] <= SIZE_LIMIT
    &&& forall|i: int|
        0 <= i < t.voxels@.len() ==> {
            let p = #[trigger] t.voxels@[i].pos;
            0 <= p.0 < t.size[0] && 0 <= p.1 < t.size[1] && 0 <= p.2 < t.size[2]
        }
}

/// Whether a template can be laid out (see `template_ok`).
pub fn template_fits(t: &StructureTemplate) -> (r: bool)
    ensures
        r == template_ok(*t),
{
    if t.size[0] > SIZE_LIMIT || t.size[1] > SIZE_LIMIT || t.size[2] > SIZE_LIMIT {
        return false;
    }
    let mut i: usize = 0;
    while i < t.voxels.len()
        invariant
            0 <= i <= t.voxels@.len(),
            t.size[0] <= SIZE_LIMIT && t.size[1] <= SIZE_LIMIT && t.size[2] <= SIZE_LIMIT,
            forall|k: int|
                0 <= k < i ==> {
                    let p = #[trigger] t.voxels@[k].pos;
                    0 <= p.0 < t.size[0] && 0 <= p.1 < t.size[1] && 0 <= p.2 < t.size[2]
                },
        decreases t.voxels@.len() - i,
    {
        let p = t.voxels[i].pos;
        if !(0 <= p.0 && (p.0 as i64) < t.size[0] as i64 && 0 <= p.1 && (p.1 as i64) < t.size[1] as i64
            && 0 <= p.2 && (p.2 as i64) < t.size[2] as i64) {
            return false;
        }
        i = i + 1;
    }
    true
}

/// A decoded port-marker selector.
#[derive(Debug, Clone, Copy, PartialEq, Eq, Structural)]
pub struct PortSelector {
    /// An input port (`i`) rather than an output port.
    pub input: bool,
    /// Index of the port in the node's input or output list.
    pub ordinal: usize,
    /// Bit of the port that ends here.
    pub bit: usize,
}

/// `s` without its leading double quotes.
pub open spec fn strip_front(s: Seq<char>) -> Seq<char>
    decreases s.len(),
{
    if s.len() > 0 && s[0] == '"' {
        strip_front(s.drop_first())
    } else {
        s
    }
}

/// `s` without its trailing double quotes.
pub open spec fn strip_back(s: Seq<char>) -> Seq<char>
    decreases s.len(),
{
    if s.len() > 0 && s.last() == '"' {
        strip_back(s.drop_last())
    } else {
        s
    }
}

/// `s` without the double quotes at either end.
pub open spec fn trim_quotes(s: Seq<char>) -> Seq<char> {
    strip_back(strip_front(s))
}

pub open spec fn is_digit(c: char) -> bool {
    '0' <= c <= '9'
}

/// Value of a string of decimal digits.
pub open spec fn digits_value(s: Seq<char>) -> nat
    decreases s.len(),
{
    if s.len() == 0 {
        0
    } else {
        digits_value(s.drop_last()) * 10 + (s.last() as nat - '0' as nat) as nat
    }
}

/// `s` without a leading `+`.
pub open spec fn unsigned_part(s: Seq<char>) -> Seq<char> {
    if s.len() > 0 && s[0] == '+' {
        s.drop_first()
    } else {
        s
    }
}

pub open spec fn all_digits(d: Seq<char>) -> bool {
    forall|i: int| 0 <= i < d.len() ==> is_digit(#[trigger] d[i])
}

/// Value of one or more digits that fits in a `usize`.
pub open spec fn decimal_digits(d: Seq<char>) -> Option<nat> {
    if d.len() > 0 && all_digits(d) && digits_value(d) <= usize::MAX {
        Some(digits_value(d))
    } else {
        None
    }
}

/// A decimal `usize`: an optional `+`, then one or more digits, with a value
/// that fits.
pub open spec fn decimal(s: Seq<char>) -> Option<nat> {
    decimal_digits(unsigned_part(s))
}

/// `i` and `j` are the positions of the only two dashes of `t`.
pub open spec fn dashes_at(t: Seq<char>, i: int, j: int) -> bool {
    &&& 0 <= i < j < t.len()
    &&& t[i] == '-' && t[j] == '-'
    &&& forall|k: int| 0 <= k < t.len() && k != i && k != j ==> #[trigger] t[k] != '-'
}

/// The selector that `s` encodes: after trimming double quotes, three fields
/// separated by dashes, the last two decimal; the port is an input port
/// exactly when the first field is `i`.
pub open spec fn parse_selector_spec(s: Seq<char>) -> Option<PortSelector> {
    let t = trim_quotes(s);
    if exists|i: int, j: int| dashes_at(t, i, j) {
        let (i, j) = choose|i: int, j: int| dashes_at(t, i, j);
        match (decimal(t.subrange(i + 1, j)), decimal(t.subrange(j + 1, t.len() as int))) {
            (Some(n), Some(b)) => Some(
                PortSelector {
                    input: t.subrange(0, i) == seq!['i'],
                    ordinal: n as usize,
                    bit: b as usize,
                },
            ),
            _ => None,
        }
    } else {
        None
    }
}

proof fn lemma_dashes_unique(t: Seq<char>, i: int, j: int, a: int, b: int)
    requires
        dashes_at(t, i, j),
        dashes_at(t, a, b),
    ensures
        i == a && j == b,
{
    if i != a {
        if a < i {
            assert(t[a] != '-');
        } else {
            assert(t[i] != '-');
        }
    }
    if j != b {
        if b < j {
            assert(t[b] != '-');
        } else {
            assert(t[j] != '-');
        }
    }
}

/// Value of the decimal number in `s[from..to]`.
fn parse_decimal(s: &Vec<char>, from: usize, to: usize) -> (r: Option<usize>)
    requires
        from <= to <= s@.len(),
    ensures
        r matches Some(v) ==> decimal(s@.subrange(from as int, to as int)) == Some(v as nat),
        r is None ==> decimal(s@.subrange(from as int, to as int)) is None,
{
    let ghost whole = s@.subrange(from as int, to as int);
    let mut i = from;
    if i < to && s[i] == '+' {
        i = i + 1;
    }
    let ghost d = s@.subrange(i as int, to as int);
    assert(d =~= unsigned_part(whole));
    if i == to {
        return None;
    }
    let start = i;
    let mut value: usize = 0;
    while i < to
        invariant
            start <= i <= to <= s@.len(),
            from <= start,
            d == s@.subrange(start as int, to as int),
            whole == s@.subrange(from as int, to as int),
            d == unsigned_part(whole),
            forall|k: int| start <= k < i ==> is_digit(#[trigger] s@[k]),
            value == digits_value(s@.subrange(start as int, i as int)),
        decreases to - i,
    {
        let c = s[i];
        if !('0' <= c && c <= '9') {
            assert(d[i - start] == c);
            assert(!is_digit(d[(i - start) as int]));
            assert(!all_digits(d));
            return None;
        }
        let digit = (c as u32 - '0' as u32) as usize;
        assert(s@.subrange(start as int, i as int + 1).drop_last() =~= s@.subrange(
            start as int,
            i as int,
        ));
        if value > (usize::MAX - digit) / 10 {
            proof {
                let p = s@.subrange(start as int, i as int + 1);
                assert(p =~= d.subrange(0, i - start + 1));
                assert(p.last() == c);
                assert(digits_value(p) == value * 10 + digit);
                assert(value * 10 + digit > usize::MAX) by (nonlinear_arith)
                    requires
                        value > (usize::MAX - digit) / 10,
                        digit <= 9,
                ;
                if all_digits(d) {
                    lemma_digits_value_prefix(d, (i - start) as int + 1);
                    assert(digits_value(d) > usize::MAX);
                }
            }
            return None;
        }
        value = value * 10 + digit;
        i = i + 1;
    }
    assert(s@.subrange(start as int, to as int) =~= d);
    Some(value)
}

/// A prefix of a digit string is worth no more than the whole.
proof fn lemma_digits_value_prefix(d: Seq<char>, n: int)
    requires
        0 <= n <= d.len(),
        all_digits(d),
    ensures
        digits_value(d.subrange(0, n)) <= digits_value(d),

    decreases d.len() - n,
{
    if n < d.len() {
        lemma_digits_value_prefix(d, n + 1);
        assert(d.subrange(0, n + 1).drop_last() =~= d.subrange(0, n));
        assert(d.subrange(0, n + 1).last() == d[n]);
    } else {
        assert(d.subrange(0, n) =~= d);
    }
}

fn chars_of(s: &String) -> (r: Vec<char>)
    ensures
        r@ == s@,
{
    let text = s.as_str();
    let n = text.unicode_len();
    let mut out: Vec<char> = Vec::new();
    let mut i: usize = 0;
    while i < n
        invariant
            0 <= i <= n,
            n == text@.len(),
            text@ == s@,
            out@ =~= text@.subrange(0, i as int),
        decreases n - i,
    {
        out.push(text.get_char(i));
        i = i + 1;
    }
    out
}

/// Decodes a port-marker selector; `None` when it is malformed.
#[verifier::rlimit(30)]
pub fn parse_selector(selector: &String) -> (r: Option<PortSelector>)
    ensures
        r == parse_selector_spec(selector@),
{
    let s = chars_of(selector);
    let ghost t0 = s@;
    // strip the quotes at the front
    let mut lo: usize = 0;
    assert(s@.subrange(0, s@.len() as int) =~= s@);
    while lo < s.len() && s[lo] == '"'
        invariant
            0 <= lo <= s@.len(),
            strip_front(s@.subrange(lo as int, s@.len() as int)) == strip_front(s@),
        decreases s@.len() - lo,
    {
        assert(s@.subrange(lo as int, s@.len() as int).drop_first() =~= s@.subrange(
            lo as int + 1,
            s@.len() as int,
        ));
        lo = lo + 1;
    }
    let ghost front = s@.subrange(lo as int, s@.len() as int);
    assert(strip_front(front) == front);
    // and at the back
    let mut hi: usize = s.len();
    while hi > lo && s[hi - 1] == '"'
        invariant
            lo <= hi <= s@.len(),
            strip_front(s@) == front,
            front == s@.subrange(lo as int, s@.len() as int),
            strip_back(s@.subrange(lo as int, hi as int)) == strip_back(front),
        decreases hi - lo,
    {
        assert(s@.subrange(lo as int, hi as int).drop_last() =~= s@.subrange(
            lo as int,
            hi as int - 1,
        ));
        hi = hi - 1;
    }
    let ghost t = s@.subrange(lo as int, hi as int);
    assert(strip_back(t) == t);
    assert(trim_quotes(selector@) == t);
    // find the dashes
    let mut first: usize = hi;
    let mut second: usize = hi;
    let mut count: usize = 0;
    let mut k: usize = lo;
    while k < hi
        invariant
            lo <= k <= hi <= s@.len(),
            t == s@.subrange(lo as int, hi as int),
            count <= 3,
            count == 0 ==> forall|m: int| lo <= m < k ==> s@[m] != '-',
            count == 1 ==> forall|m: int| first < m < k ==> s@[m] != '-',
            count >= 1 ==> lo <= first < k && s@[first as int] == '-' && forall|m: int|
                lo <= m < first ==> s@[m] != '-',
            count >= 2 ==> first < second < k && s@[second as int] == '-' && forall|m: int|
                first < m < second ==> s@[m] != '-',
            count == 2 ==> forall|m: int| second < m < k ==> s@[m] != '-',
            count == 3 ==> exists|m: int| second < m < hi && s@[m] == '-',
        decreases hi - k,
    {
        if s[k] == '-' {
            if count == 0 {
                first = k;
                count = 1;
            } else if count == 1 {
                second = k;
                count = 2;
            } else if count == 2 {
                proof {
                    assert(second < k < hi && s@[k as int] == '-');
                }
                count = 3;
            }
        }
        k = k + 1;
    }
    if count != 2 {
        assert(!exists|i: int, j: int| dashes_at(t, i, j)) by {
            if exists|i: int, j: int| dashes_at(t, i, j) {
                let (i, j) = choose|i: int, j: int| dashes_at(t, i, j);
                assert(t[i] == s@[lo + i]);
                assert(t[j] == s@[lo + j]);
                if count == 0 {
                    assert(s@[lo + i] != '-');
                } else if count == 1 {
                    assert(t[first - lo] == '-');
                    if i != first - lo {
                        assert(t[i] != '-' || t[first - lo] != '-');
                    }
                    assert(s@[lo + j] != '-');
                } else {
                    let m = choose|m: int| second < m < hi && s@[m] == '-';
                    assert(t[first - lo] == '-' && t[second - lo] == '-' && t[m - lo] == '-');
                }
            }
        }
        return None;
    }
    let ghost (gi, gj) = ((first - lo) as int, (second - lo) as int);
    assert(dashes_at(t, gi, gj)) by {
        assert forall|m: int| 0 <= m < t.len() && m != gi && m != gj implies #[trigger] t[m]
            != '-' by {
            assert(t[m] == s@[lo + m]);
        }
    }
    proof {
        let (ci, cj) = choose|i: int, j: int| dashes_at(t, i, j);
        lemma_dashes_unique(t, gi, gj, ci, cj);
    }
    assert(t.subrange(gi + 1, gj) =~= s@.subrange(first + 1, second as int));
    assert(t.subrange(gj + 1, t.len() as int) =~= s@.subrange(second + 1, hi as int));
    assert(t.subrange(0, gi) =~= s@.subrange(lo as int, first as int));
    let ordinal = parse_decimal(&s, first + 1, second);
    let bit = parse_decimal(&s, second + 1, hi);
    match (ordinal, bit) {
        (Some(n), Some(b)) => {
            let input = first == lo + 1 && s[lo] == 'i';
            assert(input == (t.subrange(0, gi) == seq!['i'])) by {
                if t.subrange(0, gi) == seq!['i'] {
                    assert(t.subrange(0, gi).len() == 1);
                    assert(t.subrange(0, gi)[0] == 'i');
                }
                if input {
                    assert(t.subrange(0, gi) =~= seq!['i']);
                }
            }
            Some(PortSelector { input, ordinal: n, bit: b })
        },
        _ => None,
    }
}

} // verus!
