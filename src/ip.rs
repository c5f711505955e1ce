use vstd::prelude::*;
use vstd::string::StringSliceAdditionalSpecFns;

verus! {

/// The fields of `b` between occurrences of `sep`; there is always at least
/// one, possibly empty.
pub open spec fn fields(b: Seq<u8>, sep: u8) -> Seq<Seq<u8>>
    decreases b.len(),
{
    if b.len() == 0 {
        seq![seq![]]
    } else {
        let f = fields(b.drop_last(), sep);
        if b.last() == sep {
            f.push(seq![])
        } else {
            f.update(f.len() - 1, f.last().push(b.last()))
        }
    }
}

/// There is always at least one field.
pub proof fn lemma_fields_nonempty(b: Seq<u8>, sep: u8)
    ensures
        fields(b, sep).len() >= 1,
    decreases b.len(),
{
    if b.len() > 0 {
        lemma_fields_nonempty(b.drop_last(), sep);
    }
}

/// The views of a list of byte strings.
pub open spec fn bytes_view(v: Seq<Vec<u8>>) -> Seq<Seq<u8>> {
    v.map_values(|x: Vec<u8>| x@)
}

/// Splits `b` at every `sep`.
fn split_fields(b: &[u8], sep: u8) -> (r: Vec<Vec<u8>>)
    ensures
        bytes_view(r@) == fields(b@, sep),
{
    let mut done: Vec<Vec<u8>> = Vec::new();
    let mut cur: Vec<u8> = Vec::new();
    let mut i: usize = 0;
    assert(b@.subrange(0, 0) =~= seq![]);
    assert(bytes_view(done@).push(cur@) =~= seq![seq![]]);
    while i < b.len()
        invariant
            i <= b.len(),
            bytes_view(done@).push(cur@) == fields(b@.subrange(0, i as int), sep),
        decreases b.len() - i,
    {
        let ghost prev = b@.subrange(0, i as int);
        assert(b@.subrange(0, i + 1).drop_last() =~= prev);
        assert(b@.subrange(0, i + 1).last() == b@[i as int]);
        let ghost old_done = bytes_view(done@);
        let ghost old_cur = cur@;
        if b[i] == sep {
            let finished = cur;
            done.push(finished);
            cur = Vec::new();
            assert(bytes_view(done@) =~= old_done.push(old_cur));
            assert(bytes_view(done@).push(cur@) =~= old_done.push(old_cur).push(seq![]));
        } else {
            cur.push(b[i]);
            assert(bytes_view(done@).push(cur@) =~= old_done.push(old_cur).update(
                old_done.len() as int,
                old_cur.push(b@[i as int]),
            ));
        }
        i = i + 1;
    }
    assert(b@.subrange(0, b@.len() as int) =~= b@);
    done.push(cur);
    done
}

/// Whether a byte is an ASCII decimal digit.
pub open spec fn is_digit(c: u8) -> bool {
    48 <= c <= 57
}

/// The value of a string of decimal digits.
pub open spec fn dec_value(s: Seq<u8>) -> nat
    decreases s.len(),
{
    if s.len() == 0 {
        0
    } else {
        dec_value(s.drop_last()) * 10 + (s.last() - 48) as nat
    }
}

/// A field that is one octet in decimal: one or more digits, at most 255.
pub open spec fn octet_field(f: Seq<u8>) -> bool {
    &&& f.len() >= 1
    &&& forall|i: int| 0 <= i < f.len() ==> is_digit(#[trigger] f[i])
    &&& dec_value(f) <= 255
}

/// The four octets written as `a.b.c.d` in decimal.
pub open spec fn v4_of(b: Seq<u8>) -> Option<Seq<u8>> {
    let fs = fields(b, 46);
    if fs.len() == 4 && forall|i: int| 0 <= i < 4 ==> octet_field(#[trigger] fs[i]) {
        Some(
            seq![
                dec_value(fs[0]) as u8,
                dec_value(fs[1]) as u8,
                dec_value(fs[2]) as u8,
                dec_value(fs[3]) as u8,
            ],
        )
    } else {
        None
    }
}

proof fn lemma_dec_prefix(s: Seq<u8>, j: int)
    requires
        0 <= j <= s.len(),
        forall|i: int| 0 <= i < s.len() ==> is_digit(#[trigger] s[i]),
    ensures
        dec_value(s.subrange(0, j)) <= dec_value(s),
    decreases s.len() - j,
{
    if j < s.len() {
        lemma_dec_prefix(s, j + 1);
        assert(s.subrange(0, j + 1).drop_last() =~= s.subrange(0, j));
    } else {
        assert(s.subrange(0, j) =~= s);
    }
}

/// The octet a decimal field denotes, if it is one.
fn parse_octet(f: &Vec<u8>) -> (r: Option<u8>)
    ensures
        r is Some <==> octet_field(f@),
        r matches Some(v) ==> v == dec_value(f@),
{
    if f.len() == 0 {
        return None;
    }
    let mut v: u32 = 0;
    let mut i: usize = 0;
    while i < f.len()
        invariant
            i <= f.len(),
            v <= 255,
            v == dec_value(f@.subrange(0, i as int)),
            forall|k: int| 0 <= k < i ==> is_digit(#[trigger] f@[k]),
        decreases f.len() - i,
    {
        assert(f@.subrange(0, i + 1).drop_last() =~= f@.subrange(0, i as int));
        let c = f[i];
        if c < 48 || c > 57 {
            return None;
        }
        let next = v * 10 + (c - 48) as u32;
        if next > 255 {
            proof {
                assert forall|k: int| 0 <= k < i + 1 implies is_digit(
                    #[trigger] f@.subrange(0, i + 1)[k],
                ) by {}
                if forall|k: int| 0 <= k < f@.len() ==> is_digit(#[trigger] f@[k]) {
                    lemma_dec_prefix(f@, i + 1);
                }
            }
            return None;
        }
        v = next;
        i = i + 1;
    }
    assert(f@.subrange(0, f@.len() as int) =~= f@);
    Some(v as u8)
}

/// An IPv4 address.
pub struct V4Address {
    data: [u8; 4],
}

impl View for V4Address {
    type V = Seq<u8>;

    closed spec fn view(&self) -> Seq<u8> {
        self.data@
    }
}

impl V4Address {
    /// The address with these four octets.
    pub fn new(data: &[u8; 4]) -> (r: V4Address)
        ensures
            r@ == data@,
    {
        V4Address { data: *data }
    }

    /// Reads an address written as four decimal octets separated by dots.
    pub fn from_str(s: &str) -> (r: Option<V4Address>)
        ensures
            match v4_of(s.spec_bytes()) {
                Some(b) => r matches Some(a) && a@ == b,
                None => r is None,
            },
    {
        let fs = split_fields(s.as_bytes(), 46);
        let ghost fv = bytes_view(fs@);
        if fs.len() != 4 {
            return None;
        }
        let mut data: [u8; 4] = [0u8; 4];
        let mut i: usize = 0;
        while i < 4
            invariant
                fs.len() == 4,
                fv == bytes_view(fs@),
                fv == fields(s.spec_bytes(), 46),
                i <= 4,
                forall|k: int| 0 <= k < i ==> octet_field(#[trigger] fv[k]),
                forall|k: int| 0 <= k < i ==> data@[k] == dec_value(#[trigger] fv[k]) as u8,
            decreases 4 - i,
        {
            assert(fv[i as int] == fs@[i as int]@);
            match parse_octet(&fs[i]) {
                Some(v) => {
                    data.set(i, v);
                },
                None => {
                    return None;
                },
            }
            i = i + 1;
        }
        let r = V4Address { data };
        assert(r@ =~= v4_of(s.spec_bytes())->Some_0);
        Some(r)
    }

    /// The four octets, in order.
    pub fn to_vec(&self) -> (r: Vec<u8>)
        ensures
            r@ == self@,
    {
        let mut v: Vec<u8> = Vec::new();
        let mut i: usize = 0;
        while i < 4
            invariant
                i <= 4,
                v@ == self.data@.subrange(0, i as int),
            decreases 4 - i,
        {
            v.push(self.data[i]);
            assert(v@ =~= self.data@.subrange(0, i + 1));
            i = i + 1;
        }
        v
    }
}

/// Whether a byte is an ASCII hexadecimal digit.
pub open spec fn is_hex(c: u8) -> bool {
    is_digit(c) || (65 <= c <= 70) || (97 <= c <= 102)
}

/// The value of one hexadecimal digit.
pub open spec fn hex_digit(c: u8) -> nat {
    if is_digit(c) {
        (c - 48) as nat
    } else if c <= 70 {
        (c - 55) as nat
    } else {
        (c - 87) as nat
    }
}

/// The value of a string of hexadecimal digits.
pub open spec fn hex_value(s: Seq<u8>) -> nat
    decreases s.len(),
{
    if s.len() == 0 {
        0
    } else {
        hex_value(s.drop_last()) * 16 + hex_digit(s.last())
    }
}

/// A field that is one 16-bit group: one to four hexadecimal digits.
pub open spec fn group_field(f: Seq<u8>) -> bool {
    1 <= f.len() <= 4 && forall|i: int| 0 <= i < f.len() ==> is_hex(#[trigger] f[i])
}

/// The colon-separated fields with the empty field dropped that a `::` at
/// the very start or end adds.
pub open spec fn v6_trim(fs: Seq<Seq<u8>>) -> Seq<Seq<u8>> {
    let a = if fs.len() >= 2 && fs[0].len() == 0 && fs[1].len() == 0 {
        fs.drop_first()
    } else {
        fs
    };
    if a.len() >= 2 && a[a.len() - 1].len() == 0 && a[a.len() - 2].len() == 0 {
        a.drop_last()
    } else {
        a
    }
}

/// `t` has its single `::` gap at `k`, and at most seven groups around it.
pub open spec fn gap_at(t: Seq<Seq<u8>>, k: int) -> bool {
    &&& 0 <= k < t.len() <= 8
    &&& t[k].len() == 0
    &&& forall|i: int| 0 <= i < t.len() && i != k ==> group_field(#[trigger] t[i])
}

/// The values of the groups of a list of fields.
pub open spec fn group_values(t: Seq<Seq<u8>>) -> Seq<nat> {
    t.map_values(|f: Seq<u8>| hex_value(f))
}

/// An empty first or last field is only allowed as half of a `::`.
pub open spec fn v6_ends_ok(fs: Seq<Seq<u8>>) -> bool {
    &&& fs[0].len() == 0 ==> fs.len() >= 2 && fs[1].len() == 0
    &&& fs.last().len() == 0 ==> fs.len() >= 2 && fs[fs.len() - 2].len() == 0
}

/// The eight groups of an address written in colon-hexadecimal form, where
/// one `::` may stand for a run of zero groups.
pub open spec fn v6_groups(b: Seq<u8>) -> Option<Seq<nat>> {
    let t = v6_trim(fields(b, 58));
    if !v6_ends_ok(fields(b, 58)) {
        None
    } else if t.len() == 8 && forall|i: int| 0 <= i < 8 ==> group_field(#[trigger] t[i]) {
        Some(group_values(t))
    } else if exists|k: int| gap_at(t, k) {
        let k = choose|k: int| gap_at(t, k);
        Some(
            group_values(t.subrange(0, k)) + Seq::new((9 - t.len()) as nat, |i: int| 0nat)
                + group_values(t.subrange(k + 1, t.len() as int)),
        )
    } else {
        None
    }
}

/// The sixteen bytes of eight groups, each big-endian.
pub open spec fn groups_bytes(g: Seq<nat>) -> Seq<u8> {
    Seq::new(16, |i: int| if i % 2 == 0 { (g[i / 2] / 256) as u8 } else { (g[i / 2] % 256) as u8 })
}

proof fn lemma_hex_bound(s: Seq<u8>)
    requires
        forall|i: int| 0 <= i < s.len() ==> is_hex(#[trigger] s[i]),
    ensures
        hex_value(s) < pow16(s.len()),
    decreases s.len(),
{
    if s.len() > 0 {
        let s0 = s.drop_last();
        assert forall|i: int| 0 <= i < s0.len() implies is_hex(#[trigger] s0[i]) by {
            assert(s0[i] == s[i]);
        }
        lemma_hex_bound(s0);
        assert(is_hex(s.last()));
    }
}

/// Sixteen to the power `n`.
pub open spec fn pow16(n: nat) -> nat
    decreases n,
{
    if n == 0 {
        1
    } else {
        16 * pow16((n - 1) as nat)
    }
}

/// The value of a group field.
fn parse_group(f: &Vec<u8>) -> (r: Option<u16>)
    ensures
        r is Some <==> group_field(f@),
        r matches Some(v) ==> v == hex_value(f@),
{
    if f.len() == 0 || f.len() > 4 {
        return None;
    }
    let mut v: u32 = 0;
    let mut i: usize = 0;
    while i < f.len()
        invariant
            1 <= f.len() <= 4,
            i <= f.len(),
            v == hex_value(f@.subrange(0, i as int)),
            v < pow16(i as nat),
            forall|k: int| 0 <= k < i ==> is_hex(#[trigger] f@[k]),
        decreases f.len() - i,
    {
        assert(f@.subrange(0, i + 1).drop_last() =~= f@.subrange(0, i as int));
        let c = f[i];
        let d: u32 = if 48 <= c && c <= 57 {
            (c - 48) as u32
        } else if 65 <= c && c <= 70 {
            (c - 55) as u32
        } else if 97 <= c && c <= 102 {
            (c - 87) as u32
        } else {
            return None;
        };
        assert(pow16(i as nat) <= 4096) by {
            reveal_with_fuel(pow16, 4);
        }
        assert(pow16((i + 1) as nat) == 16 * pow16(i as nat));
        v = v * 16 + d;
        i = i + 1;
    }
    assert(f@.subrange(0, f@.len() as int) =~= f@);
    assert(pow16(f@.len()) <= 65536) by {
        reveal_with_fuel(pow16, 5);
    }
    Some(v as u16)
}

/// The groups with the zero run of a `::` at `k` filled in to make eight.
fn expand_gap(values: &Vec<u16>, k: usize) -> (groups: Vec<u16>)
    requires
        k < values@.len() <= 8,
    ensures
        groups@ == values@.subrange(0, k as int) + Seq::new(
            (9 - values@.len()) as nat,
            |x: int| 0u16,
        ) + values@.subrange(k + 1, values@.len() as int),
{
    let n = values.len();
    let mut groups: Vec<u16> = Vec::new();
    let mut i: usize = 0;
    while i < k
        invariant
            i <= k,
            k < n,
            values@.len() == n,
            groups@ == values@.subrange(0, i as int),
        decreases k - i,
    {
        groups.push(values[i]);
        assert(groups@ =~= values@.subrange(0, i + 1));
        i = i + 1;
    }
    let mut z: usize = 0;
    while z < 9 - n
        invariant
            z <= 9 - n,
            n <= 8,
            k < n,
            values@.len() == n,
            groups@ == values@.subrange(0, k as int) + Seq::new(z as nat, |x: int| 0u16),
        decreases 9 - n - z,
    {
        groups.push(0u16);
        assert(groups@ =~= values@.subrange(0, k as int) + Seq::new((z + 1) as nat, |x: int| 0u16));
        z = z + 1;
    }
    let mut i: usize = k + 1;
    while i < n
        invariant
            k + 1 <= i <= n,
            n <= 8,
            values@.len() == n,
            groups@ == values@.subrange(0, k as int) + Seq::new((9 - n) as nat, |x: int| 0u16)
                + values@.subrange(k + 1, i as int),
        decreases n - i,
    {
        groups.push(values[i]);
        assert(groups@ =~= values@.subrange(0, k as int) + Seq::new((9 - n) as nat, |x: int| 0u16)
            + values@.subrange(k + 1, i + 1));
        i = i + 1;
    }
    groups
}

/// The sixteen bytes of eight groups.
fn groups_to_bytes(groups: &Vec<u16>) -> (data: [u8; 16])
    requires
        groups@.len() == 8,
    ensures
        data@ == groups_bytes(groups@.map_values(|x: u16| x as nat)),
{
    let ghost g = groups@.map_values(|x: u16| x as nat);
    let mut data: [u8; 16] = [0u8; 16];
    let mut i: usize = 0;
    while i < 8
        invariant
            i <= 8,
            groups@.len() == 8,
            g == groups@.map_values(|x: u16| x as nat),
            data@.len() == 16,
            forall|b: int| 0 <= b < 2 * i ==> data@[b] == #[trigger] groups_bytes(g)[b],
        decreases 8 - i,
    {
        let v = groups[i];
        data.set(2 * i, (v / 256) as u8);
        data.set(2 * i + 1, (v % 256) as u8);
        i = i + 1;
    }
    assert(data@ =~= groups_bytes(g));
    data
}

/// An IPv6 address.
pub struct V6Address {
    data: [u8; 16],
}

impl View for V6Address {
    type V = Seq<u8>;

    closed spec fn view(&self) -> Seq<u8> {
        self.data@
    }
}

impl V6Address {
    /// The address with these sixteen bytes.
    pub fn new(data: &[u8; 16]) -> (r: V6Address)
        ensures
            r@ == data@,
    {
        V6Address { data: *data }
    }

    /// Reads an address written as eight colon-separated hexadecimal groups,
    /// where one `::` may stand for a run of zero groups.
    #[verifier::rlimit(50)]
    #[verifier::spinoff_prover]
    pub fn from_str(s: &str) -> (r: Option<V6Address>)
        ensures
            match v6_groups(s.spec_bytes()) {
                Some(g) => r matches Some(a) && a@ == groups_bytes(g),
                None => r is None,
            },
    {
        let fs = split_fields(s.as_bytes(), 58);
        let ghost fv = bytes_view(fs@);
        proof {
            lemma_fields_nonempty(s.spec_bytes(), 58);
        }
        let last = fs.len() - 1;
        if fs[0].len() == 0 && !(fs.len() >= 2 && fs[1].len() == 0) {
            assert(fv[0] == fs@[0]@);
            return None;
        }
        if fs[last].len() == 0 && !(fs.len() >= 2 && fs[last - 1].len() == 0) {
            assert(fv[last as int] == fs@[last as int]@);
            return None;
        }
        proof {
            assert(fv[0] == fs@[0]@);
            assert(fv[last as int] == fs@[last as int]@);
            if fs.len() >= 2 {
                assert(fv[1] == fs@[1]@);
                assert(fv[last - 1] == fs@[last - 1]@);
            }
            assert(v6_ends_ok(fv));
        }
        let mut lo: usize = 0;
        let mut hi: usize = fs.len();
        if fs.len() >= 2 && fs[0].len() == 0 && fs[1].len() == 0 {
            lo = 1;
        }
        if hi - lo >= 2 && fs[hi - 1].len() == 0 && fs[hi - 2].len() == 0 {
            hi = hi - 1;
        }
        let ghost t = fv.subrange(lo as int, hi as int);
        proof {
            let a = if fv.len() >= 2 && fv[0].len() == 0 && fv[1].len() == 0 {
                fv.drop_first()
            } else {
                fv
            };
            assert(a =~= fv.subrange(lo as int, fv.len() as int));
            assert(t =~= v6_trim(fv));
        }
        let n = hi - lo;
        if n > 8 {
            return None;
        }
        let mut values: Vec<u16> = Vec::new();
        let mut gap: Option<usize> = None;
        let mut j: usize = 0;
        while j < n
            invariant
                fv == bytes_view(fs@),
                t == fv.subrange(lo as int, hi as int),
                t == v6_trim(fields(s.spec_bytes(), 58)),
                v6_ends_ok(fields(s.spec_bytes(), 58)),
                lo <= hi <= fs.len(),
                n == hi - lo,
                n <= 8,
                j <= n,
                values@.len() == j,
                match gap {
                    None => forall|i: int| 0 <= i < j ==> group_field(#[trigger] t[i]),
                    Some(k) => k < j && t[k as int].len() == 0 && forall|i: int|
                        0 <= i < j && i != k ==> group_field(#[trigger] t[i]),
                },
                forall|i: int|
                    0 <= i < j && group_field(t[i]) ==> values@[i] == hex_value(#[trigger] t[i]),
            decreases n - j,
        {
            assert(t[j as int] == fs@[lo + j]@);
            if fs[lo + j].len() == 0 {
                if gap.is_some() {
                    assert(v6_groups(s.spec_bytes()) is None) by {
                        assert(t.len() == n);
                        assert(!group_field(t[j as int]));
                        let k = gap->Some_0 as int;
                        assert(!group_field(t[k]) && !group_field(t[j as int]));
                        assert forall|kk: int| !gap_at(t, kk) by {
                            if gap_at(t, kk) {
                                if kk == k {
                                    assert(!group_field(t[j as int]));
                                } else {
                                    assert(!group_field(t[k]));
                                }
                            }
                        }
                    }
                    return None;
                }
                gap = Some(j);
                values.push(0u16);
            } else {
                match parse_group(&fs[lo + j]) {
                    Some(v) => {
                        values.push(v);
                    },
                    None => {
                        assert(v6_groups(s.spec_bytes()) is None) by {
                            assert(t.len() == n);
                            assert(!group_field(t[j as int]));
                            assert forall|kk: int| !gap_at(t, kk) by {
                                if gap_at(t, kk) {
                                    assert(kk != j);
                                    assert(group_field(t[j as int]));
                                }
                            }
                        }
                        return None;
                    },
                }
            }
            j = j + 1;
        }
        let mut groups: Vec<u16> = Vec::new();
        match gap {
            None => {
                if n != 8 {
                    assert(v6_groups(s.spec_bytes()) is None) by {
                        assert forall|kk: int| !gap_at(t, kk) by {
                            if gap_at(t, kk) {
                                assert(group_field(t[kk]));
                            }
                        }
                    }
                    return None;
                }
                groups = values;
                proof {
                    assert(groups@.map_values(|x: u16| x as nat) =~= group_values(t));
                }
            },
            Some(k) => {
                groups = expand_gap(&values, k);
                proof {
                    assert(t.len() == n);
                    assert(gap_at(t, k as int));
                    let kk = choose|kk: int| gap_at(t, kk);
                    if kk != k {
                        assert(group_field(t[k as int]));
                    }
                    assert(groups@.map_values(|x: u16| x as nat) =~= group_values(
                        t.subrange(0, k as int),
                    ) + Seq::new((9 - t.len()) as nat, |i: int| 0nat) + group_values(
                        t.subrange(k + 1, t.len() as int),
                    ));
                }
            },
        }
        let ghost g = groups@.map_values(|x: u16| x as nat);
        assert(g == v6_groups(s.spec_bytes())->Some_0);
        assert(groups@.len() == 8);
        let data = groups_to_bytes(&groups);
        let r = V6Address { data };
        assert(r@ =~= groups_bytes(g));
        Some(r)
    }

    /// The sixteen bytes, in order.
    pub fn to_vec(&self) -> (r: Vec<u8>)
        ensures
            r@ == self@,
    {
        let mut v: Vec<u8> = Vec::new();
        let mut i: usize = 0;
        while i < 16
            invariant
                i <= 16,
                v@ == self.data@.subrange(0, i as int),
            decreases 16 - i,
        {
            v.push(self.data[i]);
            assert(v@ =~= self.data@.subrange(0, i + 1));
            i = i + 1;
        }
        v
    }
}

} // verus!
