//! Demultiplexing by key expression: source pads named after the key
//! expressions that data arrives on, one pad per key expression, with names
//! kept unique within the element.

use vstd::prelude::*;
use crate::element::{ElementProperties, PropView, prop_view, props_view, push_prop, session_source, session_source_of, session_source_view, PropValue, SessionSource, SetOutcome};
use crate::error::{error_message, ErrorDomain, ErrorMessage, ResourceErrorKind};
use crate::metadata::{parse_attachment, BufferTiming, MetadataFields};
use crate::receive::{
    carries_timing, decode_sample, decode_spec, fresh_buffer_timing, fresh_timing, metadata_view,
    timing_from,
};
use crate::uri::opt_string_view;
use crate::text::{
    append_chars, chars_of, decimal, decimal_u64, lemma_parse_decimal, lemma_split_append, lemma_split_no_sep, lemma_split_nonempty,
    parse_u64, split, split_chars, string_of, views,
};

verus! {

/// How to derive pad names from key expressions
#[derive(Debug, Clone, Copy, PartialEq, Eq, Structural)]
pub enum PadNaming {
    /// Use full key expression: "camera/front" -> "camera_front"
    FullPath,
    /// Use last segment only: "camera/front" -> "front"
    LastSegment,
    /// Use hash of key expression: "camera/front" -> "pad_" and eight hex digits
    Hash,
}

/// The naming strategy a property nick names.
pub open spec fn naming_of_nick(s: Seq<char>) -> Option<PadNaming> {
    if s == "full-path"@ {
        Some(PadNaming::FullPath)
    } else if s == "last-segment"@ {
        Some(PadNaming::LastSegment)
    } else if s == "hash"@ {
        Some(PadNaming::Hash)
    } else {
        None
    }
}

/// The property nick of a naming strategy.
pub open spec fn nick_of_naming(n: PadNaming) -> Seq<char> {
    match n {
        PadNaming::FullPath => "full-path"@,
        PadNaming::LastSegment => "last-segment"@,
        PadNaming::Hash => "hash"@,
    }
}

/// The nicks read back as the strategies they name.
pub proof fn lemma_naming_nick_roundtrip(n: PadNaming)
    ensures
        naming_of_nick(nick_of_naming(n)) == Some(n),
{
    reveal_strlit("full-path");
    reveal_strlit("last-segment");
    reveal_strlit("hash");
    assert("full-path"@.len() != "last-segment"@.len());
    assert("full-path"@.len() != "hash"@.len());
    assert("last-segment"@.len() != "hash"@.len());
}

impl PadNaming {
    /// The naming strategy a property nick names: `full-path`, `last-segment`
    /// or `hash`.
    pub fn from_nick(s: &str) -> (r: Option<PadNaming>)
        ensures
            r == naming_of_nick(s@),
    {
        if crate::text::str_eq(s, "full-path") {
            Some(PadNaming::FullPath)
        } else if crate::text::str_eq(s, "last-segment") {
            Some(PadNaming::LastSegment)
        } else if crate::text::str_eq(s, "hash") {
            Some(PadNaming::Hash)
        } else {
            None
        }
    }

    /// The property nick of the naming strategy.
    pub fn as_nick(self) -> (s: &'static str)
        ensures
            s@ == nick_of_naming(self),
    {
        match self {
            PadNaming::FullPath => "full-path",
            PadNaming::LastSegment => "last-segment",
            PadNaming::Hash => "hash",
        }
    }
}

/// The FNV-1a 32-bit offset basis.
pub const FNV_OFFSET_BASIS: u32 = 0x811c_9dc5;

/// The FNV-1a 32-bit prime.
pub const FNV_PRIME: u32 = 0x0100_0193;

/// One FNV-1a step: xor in the byte, then multiply by the prime modulo 2^32.
pub open spec fn fnv1a_step(h: u32, b: u8) -> u32 {
    (((h ^ (b as u32)) as nat * FNV_PRIME as nat) % 0x1_0000_0000) as u32
}

/// The FNV-1a 32-bit hash of a byte sequence.
pub open spec fn fnv1a(data: Seq<u8>) -> u32
    decreases data.len(),
{
    if data.len() == 0 {
        FNV_OFFSET_BASIS
    } else {
        fnv1a_step(fnv1a(data.drop_last()), data.last())
    }
}

/// FNV-1a 32-bit hash — small, fast, and stable across versions/platforms.
pub fn fnv1a_32(data: &[u8]) -> (h: u32)
    ensures
        h == fnv1a(data@),
{
    let mut hash: u32 = FNV_OFFSET_BASIS;
    let mut i: usize = 0;
    while i < data.len()
        invariant
            i <= data.len(),
            hash == fnv1a(data@.take(i as int)),
        decreases data.len() - i,
    {
        let b = data[i];
        assert(data@.take(i as int + 1).drop_last() =~= data@.take(i as int));
        hash = hash ^ (b as u32);
        hash = hash.wrapping_mul(FNV_PRIME);
        i = i + 1;
    }
    assert(data@.take(data.len() as int) =~= data@);
    hash
}

/// The lowercase hexadecimal digit of a value below 16.
pub open spec fn hex_digit(d: nat) -> char {
    if d < 10 {
        (('0' as nat) + d) as char
    } else {
        (('a' as nat) + d - 10) as char
    }
}

/// The lowest `width` hexadecimal digits of `n`, most significant first,
/// zero-padded (as `{:0width$x}` prints a value below 16^width).
pub open spec fn hex_digits(n: nat, width: nat) -> Seq<char>
    decreases width,
{
    if width == 0 {
        Seq::empty()
    } else {
        hex_digits(n / 16, (width - 1) as nat).push(hex_digit(n % 16))
    }
}

fn hex_digit_of(d: u32) -> (c: char)
    requires
        d < 16,
    ensures
        c == hex_digit(d as nat),
{
    match d {
        0 => '0',
        1 => '1',
        2 => '2',
        3 => '3',
        4 => '4',
        5 => '5',
        6 => '6',
        7 => '7',
        8 => '8',
        9 => '9',
        10 => 'a',
        11 => 'b',
        12 => 'c',
        13 => 'd',
        14 => 'e',
        _ => 'f',
    }
}

fn hex_chars(n: u32, width: usize) -> (v: Vec<char>)
    ensures
        v@ == hex_digits(n as nat, width as nat),
    decreases width,
{
    if width == 0 {
        Vec::new()
    } else {
        let mut v = hex_chars(n / 16, width - 1);
        v.push(hex_digit_of(n % 16));
        v
    }
}

/// The replacement of one key-expression character in a pad name: `/`
/// becomes `_` (only when `slash` is set), `*` becomes `wildcard` and a space
/// becomes `_`.
pub open spec fn pad_char(c: char, slash: bool) -> Seq<char> {
    if slash && c == '/' {
        seq!['_']
    } else if c == '*' {
        "wildcard"@
    } else if c == ' ' {
        seq!['_']
    } else {
        seq![c]
    }
}

/// Every character replaced as `pad_char` says.
pub open spec fn pad_chars(s: Seq<char>, slash: bool) -> Seq<char>
    decreases s.len(),
{
    if s.len() == 0 {
        Seq::empty()
    } else {
        pad_chars(s.drop_last(), slash) + pad_char(s.last(), slash)
    }
}

/// The pad name a key expression is given under a naming strategy.
pub open spec fn pad_name_of(key_expr: Seq<char>, naming: PadNaming) -> Seq<char> {
    match naming {
        PadNaming::FullPath => pad_chars(key_expr, true),
        PadNaming::LastSegment => pad_chars(split(key_expr, '/').last(), false),
        PadNaming::Hash => "pad_"@ + hex_digits(
            fnv1a(vstd::utf8::encode_utf8(key_expr)) as nat,
            8,
        ),
    }
}

fn replace_pad_chars(s: &[char], slash: bool) -> (r: Vec<char>)
    ensures
        r@ == pad_chars(s@, slash),
{
    let mut r: Vec<char> = Vec::new();
    let mut i: usize = 0;
    while i < s.len()
        invariant
            i <= s.len(),
            r@ == pad_chars(s@.take(i as int), slash),
        decreases s.len() - i,
    {
        let c = s[i];
        assert(s@.take(i as int + 1).drop_last() =~= s@.take(i as int));
        if slash && c == '/' {
            r.push('_');
            assert(r@ =~= pad_chars(s@.take(i as int), slash) + pad_char(c, slash));
        } else if c == '*' {
            let w = chars_of("wildcard");
            append_chars(&mut r, w.as_slice());
        } else if c == ' ' {
            r.push('_');
            assert(r@ =~= pad_chars(s@.take(i as int), slash) + pad_char(c, slash));
        } else {
            r.push(c);
            assert(r@ =~= pad_chars(s@.take(i as int), slash) + pad_char(c, slash));
        }
        i = i + 1;
    }
    assert(s@.take(s.len() as int) =~= s@);
    r
}

/// Convert a key expression to a valid GStreamer pad name.
///
/// Full path: `/` becomes `_`, `*` becomes `wildcard` and a space `_`. Last
/// segment: the text after the last `/`, with `*` and spaces replaced alike.
/// Hash: `pad_` and the FNV-1a hash of the key expression's UTF-8 bytes as
/// eight lowercase hexadecimal digits.
pub fn key_expr_to_pad_name(key_expr: &str, naming: PadNaming) -> (name: String)
    ensures
        name@ == pad_name_of(key_expr@, naming),
{
    match naming {
        PadNaming::FullPath => {
            let c = chars_of(key_expr);
            let r = replace_pad_chars(c.as_slice(), true);
            string_of(r.as_slice())
        },
        PadNaming::LastSegment => {
            let c = chars_of(key_expr);
            let parts = split_chars(c.as_slice(), '/');
            proof {
                lemma_split_nonempty(key_expr@, '/');
            }
            let last = &parts[parts.len() - 1];
            assert(views(parts@)[parts.len() - 1] == last@);
            let r = replace_pad_chars(last.as_slice(), false);
            string_of(r.as_slice())
        },
        PadNaming::Hash => {
            let h = fnv1a_32(key_expr.as_bytes());
            let mut r = chars_of("pad_");
            let hx = hex_chars(h, 8);
            append_chars(&mut r, hx.as_slice());
            string_of(r.as_slice())
        },
    }
}

/// `base` with a numeric suffix: `base_n`.
pub open spec fn suffixed(base: Seq<char>, n: nat) -> Seq<char> {
    base + seq!['_'] + decimal(n)
}

/// The name `unique_pad_name` picks: `base` when unused, otherwise `base_n`
/// for the least `n >= 1` that is unused.
pub open spec fn is_first_free(r: Seq<char>, base: Seq<char>, used: Seq<Seq<char>>) -> bool {
    &&& !used.contains(r)
    &&& !used.contains(base) ==> r == base
    &&& used.contains(base) ==> exists|n: nat|
        1 <= n && r == suffixed(base, n) && forall|m: nat|
            1 <= m < n ==> used.contains(#[trigger] suffixed(base, m))
}

/// Distinct suffixes give distinct names.
proof fn lemma_suffixed_injective(base: Seq<char>, a: u64, b: u64)
    requires
        suffixed(base, a as nat) == suffixed(base, b as nat),
    ensures
        a == b,
{
    let k = base.len() + 1int;
    assert(suffixed(base, a as nat).skip(k) =~= decimal(a as nat));
    assert(suffixed(base, b as nat).skip(k) =~= decimal(b as nat));
    lemma_parse_decimal(a);
    lemma_parse_decimal(b);
}

/// The names `base_1` .. `base_n`.
spec fn suffix_set(base: Seq<char>, n: nat) -> Set<Seq<char>>
    decreases n,
{
    if n == 0 {
        Set::empty()
    } else {
        suffix_set(base, (n - 1) as nat).insert(suffixed(base, n))
    }
}

proof fn lemma_suffix_set(base: Seq<char>, n: u64)
    ensures
        suffix_set(base, n as nat).finite(),
        suffix_set(base, n as nat).len() == n,
        forall|s: Seq<char>|
            #[trigger] suffix_set(base, n as nat).contains(s) ==> exists|m: u64|
                1 <= m <= n && s == suffixed(base, m as nat),
    decreases n,
{
    broadcast use vstd::set::axiom_set_insert_len, vstd::set::axiom_set_insert_finite;

    if n > 0 {
        let p = (n - 1) as u64;
        lemma_suffix_set(base, p);
        let c = suffixed(base, n as nat);
        if suffix_set(base, p as nat).contains(c) {
            let m = choose|m: u64| 1 <= m <= p && c == suffixed(base, m as nat);
            lemma_suffixed_injective(base, m, n);
        }
        assert forall|s: Seq<char>| #[trigger] suffix_set(base, n as nat).contains(s) implies exists|
            m: u64,
        | 1 <= m <= n && s == suffixed(base, m as nat) by {
            if s != c {
                assert(suffix_set(base, p as nat).contains(s));
                let m = choose|m: u64| 1 <= m <= p && s == suffixed(base, m as nat);
                assert(1 <= m <= n && s == suffixed(base, m as nat));
            }
        }
    } else {
        assert(suffix_set(base, 0) =~= Set::<Seq<char>>::empty());
    }
}

/// When `base_1` .. `base_n` are all used, there are at least `n` used names.
proof fn lemma_used_bound(base: Seq<char>, used: Seq<Seq<char>>, n: u64)
    requires
        forall|m: nat| 1 <= m <= n ==> used.contains(#[trigger] suffixed(base, m)),
    ensures
        n <= used.len(),
{
    lemma_suffix_set(base, n);
    let s = suffix_set(base, n as nat);
    assert(s.subset_of(used.to_set())) by {
        assert forall|x: Seq<char>| #[trigger] s.contains(x) implies used.to_set().contains(x) by {
            let m = choose|m: u64| 1 <= m <= n && x == suffixed(base, m as nat);
            assert(used.contains(suffixed(base, m as nat)));
        }
    }
    vstd::seq_lib::seq_to_set_is_finite(used);
    vstd::set_lib::lemma_len_subset(s, used.to_set());
    used.lemma_cardinality_of_set();
}

fn contains_name(used: &[String], name: &Vec<char>) -> (r: bool)
    ensures
        r == views_of_strings(used@).contains(name@),
{
    let mut i: usize = 0;
    while i < used.len()
        invariant
            i <= used.len(),
            forall|j: int| 0 <= j < i ==> used@[j]@ != name@,
        decreases used.len() - i,
    {
        let u = chars_of(used[i].as_str());
        if crate::text::chars_eq(u.as_slice(), name.as_slice()) {
            assert(views_of_strings(used@)[i as int] == name@);
            return true;
        }
        i = i + 1;
    }
    assert forall|j: int| 0 <= j < views_of_strings(used@).len() implies views_of_strings(
        used@,
    )[j] != name@ by {
        assert(used@[j]@ != name@);
    }
    false
}

/// The character sequences of strings.
pub open spec fn views_of_strings(v: Seq<String>) -> Seq<Seq<char>> {
    v.map_values(|s: String| s@)
}

/// Pick a pad name based on `base` that does not collide with any name in
/// `used`: `base` itself when free, otherwise `base_1`, `base_2`, ... up to
/// the first free one.
pub fn unique_pad_name(base: &str, used: &[String]) -> (name: String)
    requires
        used@.len() < u64::MAX,
    ensures
        is_first_free(name@, base@, views_of_strings(used@)),
{
    let ghost uv = views_of_strings(used@);
    let b = chars_of(base);
    if !contains_name(used, &b) {
        return string_of(b.as_slice());
    }
    let mut n: u64 = 1;
    loop
        invariant
            1 <= n <= used@.len() + 1,
            used@.len() < u64::MAX,
            uv == views_of_strings(used@),
            uv.contains(base@),
            b@ == base@,
            forall|m: nat| 1 <= m < n ==> uv.contains(#[trigger] suffixed(base@, m)),
        decreases used@.len() + 1 - n,
    {
        let mut cand = b.clone();
        cand.push('_');
        let d = decimal_u64(n);
        append_chars(&mut cand, d.as_slice());
        assert(cand@ =~= suffixed(base@, n as nat));
        if !contains_name(used, &cand) {
            let r = string_of(cand.as_slice());
            assert(is_first_free(r@, base@, uv));
            return r;
        }
        proof {
            lemma_used_bound(base@, uv, n);
            assert(uv.len() == used@.len());
        }
        n = n + 1;
    }
}

/// Whether no value occurs twice.
pub open spec fn all_distinct(s: Seq<Seq<char>>) -> bool {
    forall|i: int, j: int| 0 <= i < s.len() && 0 <= j < s.len() && i != j ==> s[i] != s[j]
}

/// One dynamic pad: the key expression it carries, its name and the pad.
pub struct PadEntry<P> {
    pub key_expr: String,
    pub name: String,
    pub pad: P,
}

/// The dynamic pads of a demuxer, keyed by the **full key expression** (not
/// the derived pad name) so two distinct key expressions are never merged onto
/// one pad, even when their pad names would collide.
pub struct PadTable<P> {
    entries: Vec<PadEntry<P>>,
}

/// Where a sample goes: to the pad at an index, or to a new pad with a name.
pub enum Route {
    Existing(usize),
    Create(String),
}

impl<P> PadTable<P> {
    /// The key expressions, in the order their pads were added.
    pub closed spec fn keys(&self) -> Seq<Seq<char>> {
        self.entries@.map_values(|e: PadEntry<P>| e.key_expr@)
    }

    /// The pad names, in the same order.
    pub closed spec fn names(&self) -> Seq<Seq<char>> {
        self.entries@.map_values(|e: PadEntry<P>| e.name@)
    }

    /// The pads, in the same order.
    pub closed spec fn pads(&self) -> Seq<P> {
        self.entries@.map_values(|e: PadEntry<P>| e.pad)
    }

    /// No key expression and no pad name occurs twice.
    pub open spec fn wf(&self) -> bool {
        &&& all_distinct(self.keys())
        &&& all_distinct(self.names())
        &&& self.keys().len() == self.names().len()
        &&& self.keys().len() == self.pads().len()
    }

    /// A table with no pads.
    pub fn new() -> (t: Self)
        ensures
            t.wf(),
            t.keys() == Seq::<Seq<char>>::empty(),
            t.names() == Seq::<Seq<char>>::empty(),
            t.pads() == Seq::<P>::empty(),
    {
        let t = PadTable { entries: Vec::new() };
        assert(t.keys() =~= Seq::<Seq<char>>::empty());
        assert(t.names() =~= Seq::<Seq<char>>::empty());
        assert(t.pads() =~= Seq::<P>::empty());
        t
    }

    /// The number of pads.
    pub fn len(&self) -> (n: usize)
        ensures
            n == self.keys().len(),
            n == self.names().len(),
            n == self.pads().len(),
    {
        self.entries.len()
    }

    /// The position of the pad carrying a key expression, if there is one.
    pub fn find(&self, key_expr: &str) -> (r: Option<usize>)
        ensures
            match r {
                Some(i) => i < self.keys().len() && self.keys()[i as int] == key_expr@,
                None => !self.keys().contains(key_expr@),
            },
    {
        let k = chars_of(key_expr);
        let mut i: usize = 0;
        while i < self.entries.len()
            invariant
                i <= self.entries.len(),
                k@ == key_expr@,
                forall|j: int| 0 <= j < i ==> self.keys()[j] != key_expr@,
            decreases self.entries.len() - i,
        {
            let e = chars_of(self.entries[i].key_expr.as_str());
            if crate::text::chars_eq(e.as_slice(), k.as_slice()) {
                assert(self.keys()[i as int] == self.entries@[i as int].key_expr@);
                return Some(i);
            }
            assert(self.keys()[i as int] == self.entries@[i as int].key_expr@);
            i = i + 1;
        }
        None
    }

    /// The pad at a position.
    pub fn pad(&self, i: usize) -> (p: &P)
        requires
            i < self.pads().len(),
        ensures
            *p == self.pads()[i as int],
    {
        &self.entries[i].pad
    }

    /// The name of the pad at a position.
    pub fn name(&self, i: usize) -> (s: &str)
        requires
            i < self.names().len(),
        ensures
            s@ == self.names()[i as int],
    {
        self.entries[i].name.as_str()
    }

    /// The pad names, in order.
    pub fn name_list(&self) -> (v: Vec<String>)
        ensures
            views_of_strings(v@) == self.names(),
    {
        let mut v: Vec<String> = Vec::new();
        let mut i: usize = 0;
        while i < self.entries.len()
            invariant
                i <= self.entries.len(),
                views_of_strings(v@) == self.names().take(i as int),
            decreases self.entries.len() - i,
        {
            let s = self.entries[i].name.clone();
            let ghost before = v@;
            v.push(s);
            assert(views_of_strings(v@) =~= views_of_strings(before).push(
                self.entries@[i as int].name@,
            ));
            assert(self.names().take(i as int + 1) =~= self.names().take(i as int).push(
                self.names()[i as int],
            ));
            i = i + 1;
        }
        assert(self.names().take(i as int) =~= self.names());
        v
    }

    /// Where a sample that arrived on `key_expr` goes: the pad already carrying
    /// that key expression, or a new pad named from the key expression under
    /// `naming`, made unique among the existing pad names.
    pub fn route(&self, key_expr: &str, naming: PadNaming) -> (r: Route)
        requires
            self.names().len() < u64::MAX,
        ensures
            match r {
                Route::Existing(i) => i < self.keys().len() && self.keys()[i as int]
                    == key_expr@,
                Route::Create(name) => !self.keys().contains(key_expr@) && is_first_free(
                    name@,
                    pad_name_of(key_expr@, naming),
                    self.names(),
                ),
            },
    {
        match self.find(key_expr) {
            Some(i) => Route::Existing(i),
            None => {
                let base = key_expr_to_pad_name(key_expr, naming);
                let used = self.name_list();
                Route::Create(unique_pad_name(base.as_str(), used.as_slice()))
            },
        }
    }

    /// Add a pad for a key expression that has none, under a name no pad has.
    pub fn insert(&mut self, key_expr: String, name: String, pad: P)
        requires
            old(self).wf(),
            !old(self).keys().contains(key_expr@),
            !old(self).names().contains(name@),
        ensures
            final(self).wf(),
            final(self).keys() == old(self).keys().push(key_expr@),
            final(self).names() == old(self).names().push(name@),
            final(self).pads() == old(self).pads().push(pad),
    {
        let ghost k0 = self.keys();
        let ghost n0 = self.names();
        let ghost p0 = self.pads();
        let ghost kv = key_expr@;
        let ghost nv = name@;
        self.entries.push(PadEntry { key_expr, name, pad });
        assert(self.keys() =~= k0.push(kv));
        assert(self.names() =~= n0.push(nv));
        assert(self.pads() =~= p0.push(self.entries@.last().pad));
        assert(all_distinct(k0.push(kv))) by {
            assert forall|i: int, j: int|
                0 <= i < k0.len() + 1 && 0 <= j < k0.len() + 1 && i != j implies k0.push(kv)[i]
                != k0.push(kv)[j] by {
                if i < k0.len() && j == k0.len() {
                    assert(k0.contains(k0[i]));
                } else if j < k0.len() && i == k0.len() {
                    assert(k0.contains(k0[j]));
                }
            }
        }
        assert(all_distinct(n0.push(nv))) by {
            assert forall|i: int, j: int|
                0 <= i < n0.len() + 1 && 0 <= j < n0.len() + 1 && i != j implies n0.push(nv)[i]
                != n0.push(nv)[j] by {
                if i < n0.len() && j == n0.len() {
                    assert(n0.contains(n0[i]));
                } else if j < n0.len() && i == n0.len() {
                    assert(n0.contains(n0[j]));
                }
            }
        }
    }
}

/// Record a pad created for a key expression: it joins the table and the
/// `pads-created` statistic counts it. Starting from an empty table and fresh
/// statistics, the statistic thus always equals the number of pads.
pub fn register_pad<P>(
    table: &mut PadTable<P>,
    stats: &mut DemuxStats,
    key_expr: String,
    name: String,
    pad: P,
)
    requires
        old(table).wf(),
        !old(table).keys().contains(key_expr@),
        !old(table).names().contains(name@),
    ensures
        final(table).wf(),
        final(table).keys() == old(table).keys().push(key_expr@),
        final(table).names() == old(table).names().push(name@),
        final(table).pads() == old(table).pads().push(pad),
        *final(stats) == (DemuxStats {
            pads_created: crate::zenohsrc::clamp(old(stats).pads_created + 1, 0, u64::MAX as int)
                as u64,
            ..*old(stats)
        }),
        old(stats).pads_created == old(table).keys().len() && old(table).keys().len() < u64::MAX
            ==> final(stats).pads_created == final(table).keys().len(),
{
    table.insert(key_expr, name, pad);
    stats.record_pad();
}

/// In a well-formed table a key expression is carried by one pad only, and
/// pads of distinct key expressions have distinct names.
pub proof fn lemma_one_pad_per_key<P>(t: PadTable<P>, i: int, j: int)
    requires
        t.wf(),
        0 <= i < t.keys().len(),
        0 <= j < t.keys().len(),
    ensures
        t.keys()[i] == t.keys()[j] <==> i == j,
        i != j ==> t.names()[i] != t.names()[j],
{
}

/// The property names are distinct texts.
proof fn lemma_demux_names()
    ensures
        "key-expr"@ != "config"@,
        "key-expr"@ != "pad-naming"@,
        "key-expr"@ != "receive-timeout-ms"@,
        "key-expr"@ != "no-more-pads-timeout-ms"@,
        "key-expr"@ != "session-group"@,
        "key-expr"@ != "bytes-received"@,
        "key-expr"@ != "messages-received"@,
        "key-expr"@ != "pads-created"@,
        "key-expr"@ != "errors"@,
        "config"@ != "pad-naming"@,
        "config"@ != "receive-timeout-ms"@,
        "config"@ != "no-more-pads-timeout-ms"@,
        "config"@ != "session-group"@,
        "config"@ != "bytes-received"@,
        "config"@ != "messages-received"@,
        "config"@ != "pads-created"@,
        "config"@ != "errors"@,
        "pad-naming"@ != "receive-timeout-ms"@,
        "pad-naming"@ != "no-more-pads-timeout-ms"@,
        "pad-naming"@ != "session-group"@,
        "pad-naming"@ != "bytes-received"@,
        "pad-naming"@ != "messages-received"@,
        "pad-naming"@ != "pads-created"@,
        "pad-naming"@ != "errors"@,
        "receive-timeout-ms"@ != "no-more-pads-timeout-ms"@,
        "receive-timeout-ms"@ != "session-group"@,
        "receive-timeout-ms"@ != "bytes-received"@,
        "receive-timeout-ms"@ != "messages-received"@,
        "receive-timeout-ms"@ != "pads-created"@,
        "receive-timeout-ms"@ != "errors"@,
        "no-more-pads-timeout-ms"@ != "session-group"@,
        "no-more-pads-timeout-ms"@ != "bytes-received"@,
        "no-more-pads-timeout-ms"@ != "messages-received"@,
        "no-more-pads-timeout-ms"@ != "pads-created"@,
        "no-more-pads-timeout-ms"@ != "errors"@,
        "session-group"@ != "bytes-received"@,
        "session-group"@ != "messages-received"@,
        "session-group"@ != "pads-created"@,
        "session-group"@ != "errors"@,
        "bytes-received"@ != "messages-received"@,
        "bytes-received"@ != "pads-created"@,
        "bytes-received"@ != "errors"@,
        "messages-received"@ != "pads-created"@,
        "messages-received"@ != "errors"@,
        "pads-created"@ != "errors"@,
{
    reveal_strlit("key-expr");
    reveal_strlit("config");
    reveal_strlit("pad-naming");
    reveal_strlit("receive-timeout-ms");
    reveal_strlit("no-more-pads-timeout-ms");
    reveal_strlit("session-group");
    reveal_strlit("bytes-received");
    reveal_strlit("messages-received");
    reveal_strlit("pads-created");
    reveal_strlit("errors");
    assert("key-expr"@.len() != "config"@.len());
    assert("key-expr"@.len() != "pad-naming"@.len());
    assert("key-expr"@.len() != "receive-timeout-ms"@.len());
    assert("key-expr"@.len() != "no-more-pads-timeout-ms"@.len());
    assert("key-expr"@.len() != "session-group"@.len());
    assert("key-expr"@.len() != "bytes-received"@.len());
    assert("key-expr"@.len() != "messages-received"@.len());
    assert("key-expr"@.len() != "pads-created"@.len());
    assert("key-expr"@.len() != "errors"@.len());
    assert("config"@.len() != "pad-naming"@.len());
    assert("config"@.len() != "receive-timeout-ms"@.len());
    assert("config"@.len() != "no-more-pads-timeout-ms"@.len());
    assert("config"@.len() != "session-group"@.len());
    assert("config"@.len() != "bytes-received"@.len());
    assert("config"@.len() != "messages-received"@.len());
    assert("config"@.len() != "pads-created"@.len());
    assert("config"@[0] != "errors"@[0]);
    assert("pad-naming"@.len() != "receive-timeout-ms"@.len());
    assert("pad-naming"@.len() != "no-more-pads-timeout-ms"@.len());
    assert("pad-naming"@.len() != "session-group"@.len());
    assert("pad-naming"@.len() != "bytes-received"@.len());
    assert("pad-naming"@.len() != "messages-received"@.len());
    assert("pad-naming"@.len() != "pads-created"@.len());
    assert("pad-naming"@.len() != "errors"@.len());
    assert("receive-timeout-ms"@.len() != "no-more-pads-timeout-ms"@.len());
    assert("receive-timeout-ms"@.len() != "session-group"@.len());
    assert("receive-timeout-ms"@.len() != "bytes-received"@.len());
    assert("receive-timeout-ms"@.len() != "messages-received"@.len());
    assert("receive-timeout-ms"@.len() != "pads-created"@.len());
    assert("receive-timeout-ms"@.len() != "errors"@.len());
    assert("no-more-pads-timeout-ms"@.len() != "session-group"@.len());
    assert("no-more-pads-timeout-ms"@.len() != "bytes-received"@.len());
    assert("no-more-pads-timeout-ms"@.len() != "messages-received"@.len());
    assert("no-more-pads-timeout-ms"@.len() != "pads-created"@.len());
    assert("no-more-pads-timeout-ms"@.len() != "errors"@.len());
    assert("session-group"@.len() != "bytes-received"@.len());
    assert("session-group"@.len() != "messages-received"@.len());
    assert("session-group"@.len() != "pads-created"@.len());
    assert("session-group"@.len() != "errors"@.len());
    assert("bytes-received"@.len() != "messages-received"@.len());
    assert("bytes-received"@.len() != "pads-created"@.len());
    assert("bytes-received"@.len() != "errors"@.len());
    assert("messages-received"@.len() != "pads-created"@.len());
    assert("messages-received"@.len() != "errors"@.len());
    assert("pads-created"@.len() != "errors"@.len());
}

/// Configuration settings for the demultiplexer.
#[derive(Debug, Clone)]
pub struct DemuxSettings {
    /// Zenoh key expression for subscribing (supports wildcards)
    pub key_expr: String,
    /// Optional path to Zenoh configuration file
    pub config_file: Option<String>,
    /// How to name pads from key expressions
    pub pad_naming: PadNaming,
    /// Receive timeout in milliseconds
    pub receive_timeout_ms: u64,
    /// Quiescence window (ms) after which no more pads are announced, so
    /// downstream auto-pluggers can finalize. 0 disables the announcement.
    pub no_more_pads_timeout_ms: u64,
    /// Session group name for sharing sessions via property
    pub session_group: Option<String>,
}

/// The demultiplexer's settings, as character sequences.
pub struct DemuxConfig {
    pub key_expr: Seq<char>,
    pub config_file: Option<Seq<char>>,
    pub pad_naming: PadNaming,
    pub receive_timeout_ms: u64,
    pub no_more_pads_timeout_ms: u64,
    pub session_group: Option<Seq<char>>,
}

/// The default settings: no key expression or config file, full-path pad
/// names, a 100 ms receive timeout, a 500 ms quiescence window and no session
/// group.
pub open spec fn demux_defaults() -> DemuxConfig {
    DemuxConfig {
        key_expr: Seq::empty(),
        config_file: None,
        pad_naming: PadNaming::FullPath,
        receive_timeout_ms: 100,
        no_more_pads_timeout_ms: 500,
        session_group: None,
    }
}

/// Whether a value has the type a property is declared with.
pub open spec fn demux_value_fits(name: Seq<char>, v: PropValue) -> bool {
    if name == "key-expr"@ {
        v is Str
    } else if name == "config"@ || name == "session-group"@ {
        v is OptStr
    } else if name == "pad-naming"@ {
        v is Naming
    } else if name == "receive-timeout-ms"@ || name == "no-more-pads-timeout-ms"@ {
        v is U64
    } else {
        true
    }
}

/// What setting a property does: every property can change at any time.
pub open spec fn demux_set_property(c: DemuxConfig, name: Seq<char>, v: PropValue) -> (
    DemuxConfig,
    SetOutcome,
) {
    if name == "key-expr"@ {
        (DemuxConfig { key_expr: v->Str_0@, ..c }, SetOutcome::Applied)
    } else if name == "config"@ {
        (DemuxConfig { config_file: opt_string_view(v->OptStr_0), ..c }, SetOutcome::Applied)
    } else if name == "pad-naming"@ {
        (DemuxConfig { pad_naming: v->Naming_0, ..c }, SetOutcome::Applied)
    } else if name == "receive-timeout-ms"@ {
        (DemuxConfig { receive_timeout_ms: v->U64_0, ..c }, SetOutcome::Applied)
    } else if name == "no-more-pads-timeout-ms"@ {
        (DemuxConfig { no_more_pads_timeout_ms: v->U64_0, ..c }, SetOutcome::Applied)
    } else if name == "session-group"@ {
        (DemuxConfig { session_group: opt_string_view(v->OptStr_0), ..c }, SetOutcome::Applied)
    } else {
        (c, SetOutcome::Unknown)
    }
}

/// What reading a settable property gives, for the settable properties.
pub open spec fn demux_prop_read(c: DemuxConfig, name: Seq<char>) -> Option<PropView> {
    if name == "key-expr"@ {
        Some(PropView::Str(c.key_expr))
    } else if name == "config"@ {
        Some(PropView::OptStr(c.config_file))
    } else if name == "pad-naming"@ {
        Some(PropView::Naming(c.pad_naming))
    } else if name == "receive-timeout-ms"@ {
        Some(PropView::U64(c.receive_timeout_ms))
    } else if name == "no-more-pads-timeout-ms"@ {
        Some(PropView::U64(c.no_more_pads_timeout_ms))
    } else if name == "session-group"@ {
        Some(PropView::OptStr(c.session_group))
    } else {
        None
    }
}

/// Setting a property and reading it back: every settable property is
/// applied and reads the value that was set, and every other property reads
/// as before.
pub proof fn lemma_demux_set_then_get(c: DemuxConfig, name: Seq<char>, v: PropValue)
    requires
        demux_value_fits(name, v),
        demux_prop_read(c, name) is Some,
    ensures
        ({
            let (c2, o) = demux_set_property(c, name, v);
            &&& o == SetOutcome::Applied
            &&& demux_prop_read(c2, name) == Some(prop_view(v))
            &&& forall|other: Seq<char>|
                other != name ==> #[trigger] demux_prop_read(c2, other) == demux_prop_read(c, other)
        }),
{
    lemma_demux_names();
}

/// The statistics a started demultiplexer reports.
#[derive(Debug, Clone, Copy, PartialEq, Eq, Structural)]
pub struct DemuxStats {
    pub bytes_received: u64,
    pub messages_received: u64,
    pub pads_created: u64,
    pub errors: u64,
}

impl View for DemuxSettings {
    type V = DemuxConfig;

    /// The settings as character sequences.
    open spec fn view(&self) -> DemuxConfig {
        DemuxConfig {
            key_expr: self.key_expr@,
            config_file: opt_string_view(self.config_file),
            pad_naming: self.pad_naming,
            receive_timeout_ms: self.receive_timeout_ms,
            no_more_pads_timeout_ms: self.no_more_pads_timeout_ms,
            session_group: opt_string_view(self.session_group),
        }
    }
}

impl DemuxSettings {
    /// Set a property by name.
    pub fn set_property(&mut self, name: &str, value: PropValue) -> (o: SetOutcome)
        requires
            demux_value_fits(name@, value),
        ensures
            (final(self)@, o) == demux_set_property(old(self)@, name@, value),
    {
        proof {
            lemma_demux_names();
        }
        if crate::text::str_eq(name, "key-expr") {
            if let PropValue::Str(s) = value {
                self.key_expr = s;
            }
            SetOutcome::Applied
        } else if crate::text::str_eq(name, "config") {
            if let PropValue::OptStr(s) = value {
                self.config_file = s;
            }
            SetOutcome::Applied
        } else if crate::text::str_eq(name, "pad-naming") {
            if let PropValue::Naming(n) = value {
                self.pad_naming = n;
            }
            SetOutcome::Applied
        } else if crate::text::str_eq(name, "receive-timeout-ms") {
            if let PropValue::U64(v) = value {
                self.receive_timeout_ms = v;
            }
            SetOutcome::Applied
        } else if crate::text::str_eq(name, "no-more-pads-timeout-ms") {
            if let PropValue::U64(v) = value {
                self.no_more_pads_timeout_ms = v;
            }
            SetOutcome::Applied
        } else if crate::text::str_eq(name, "session-group") {
            if let PropValue::OptStr(s) = value {
                self.session_group = s;
            }
            SetOutcome::Applied
        } else {
            SetOutcome::Unknown
        }
    }

    /// Read a property by name. Statistics read as 0 unless the element is
    /// started (`stats` is `Some`); an unknown name reads as an empty string.
    pub fn property(&self, name: &str, stats: Option<DemuxStats>) -> (v: PropValue)
        ensures
            name@ == "key-expr"@ ==> (v matches PropValue::Str(s) && s@ == self.key_expr@),
            name@ == "config"@ ==> (v matches PropValue::OptStr(o) && opt_string_view(o)
                == opt_string_view(self.config_file)),
            name@ == "pad-naming"@ ==> v == PropValue::Naming(self.pad_naming),
            name@ == "receive-timeout-ms"@ ==> v == PropValue::U64(self.receive_timeout_ms),
            name@ == "no-more-pads-timeout-ms"@ ==> v == PropValue::U64(
                self.no_more_pads_timeout_ms,
            ),
            name@ == "session-group"@ ==> (v matches PropValue::OptStr(o) && opt_string_view(o)
                == opt_string_view(self.session_group)),
            name@ == "bytes-received"@ ==> v == PropValue::U64(
                match stats {
                    Some(s) => s.bytes_received,
                    None => 0,
                },
            ),
            name@ == "messages-received"@ ==> v == PropValue::U64(
                match stats {
                    Some(s) => s.messages_received,
                    None => 0,
                },
            ),
            name@ == "pads-created"@ ==> v == PropValue::U64(
                match stats {
                    Some(s) => s.pads_created,
                    None => 0,
                },
            ),
            name@ == "errors"@ ==> v == PropValue::U64(
                match stats {
                    Some(s) => s.errors,
                    None => 0,
                },
            ),
            demux_prop_read(self@, name@) is Some ==> demux_prop_read(self@, name@) == Some(
                prop_view(v),
            ),
    {
        proof {
            lemma_demux_names();
        }
        if crate::text::str_eq(name, "key-expr") {
            PropValue::Str(self.key_expr.clone())
        } else if crate::text::str_eq(name, "config") {
            PropValue::OptStr(self.config_file.clone())
        } else if crate::text::str_eq(name, "pad-naming") {
            PropValue::Naming(self.pad_naming)
        } else if crate::text::str_eq(name, "receive-timeout-ms") {
            PropValue::U64(self.receive_timeout_ms)
        } else if crate::text::str_eq(name, "no-more-pads-timeout-ms") {
            PropValue::U64(self.no_more_pads_timeout_ms)
        } else if crate::text::str_eq(name, "session-group") {
            PropValue::OptStr(self.session_group.clone())
        } else if crate::text::str_eq(name, "bytes-received") {
            PropValue::U64(
                match stats {
                    Some(s) => s.bytes_received,
                    None => 0,
                },
            )
        } else if crate::text::str_eq(name, "messages-received") {
            PropValue::U64(
                match stats {
                    Some(s) => s.messages_received,
                    None => 0,
                },
            )
        } else if crate::text::str_eq(name, "pads-created") {
            PropValue::U64(
                match stats {
                    Some(s) => s.pads_created,
                    None => 0,
                },
            )
        } else if crate::text::str_eq(name, "errors") {
            PropValue::U64(
                match stats {
                    Some(s) => s.errors,
                    None => 0,
                },
            )
        } else {
            PropValue::Str(String::new())
        }
    }

    /// The check before leaving the NULL state: a key expression is required.
    pub fn check_ready(&self) -> (r: Result<(), ErrorMessage>)
        ensures
            self@.key_expr.len() == 0 ==> (r matches Err(m) && m.domain == ErrorDomain::Resource(
                ResourceErrorKind::Settings,
            ) && m.text@ == "Key expression is required"@),
            self@.key_expr.len() > 0 ==> r is Ok,
    {
        let k = chars_of(self.key_expr.as_str());
        if k.len() == 0 {
            Err(
                error_message(
                    ErrorDomain::Resource(ResourceErrorKind::Settings),
                    "Key expression is required",
                ),
            )
        } else {
            Ok(())
        }
    }

    /// Where the session comes from: the session group, else a new session.
    pub fn session_source(&self) -> (s: SessionSource)
        ensures
            session_source_view(s) == session_source_of(
                false,
                self@.session_group,
                self@.config_file,
            ),
    {
        session_source(false, &self.session_group, &self.config_file)
    }
}

impl Default for DemuxSettings {
    fn default() -> (s: DemuxSettings)
        ensures
            s@ == demux_defaults(),
    {
        DemuxSettings {
            key_expr: String::new(),
            config_file: None,
            pad_naming: PadNaming::FullPath,
            receive_timeout_ms: 100,
            no_more_pads_timeout_ms: 500,
            session_group: None,
        }
    }
}

/// Whether to announce that no more pads will come: once, when the window is
/// not 0 and at least that many milliseconds passed since the last pad was
/// added.
pub fn no_more_pads_due(emitted: bool, timeout_ms: u64, since_last_pad_ms: Option<u64>) -> (r: bool)
    ensures
        r == (!emitted && timeout_ms > 0 && (since_last_pad_ms matches Some(t) && t >= timeout_ms)),
{
    if emitted || timeout_ms == 0 {
        return false;
    }
    match since_last_pad_ms {
        Some(t) => t >= timeout_ms,
        None => false,
    }
}

impl DemuxStats {
    /// All counters at zero.
    pub fn new() -> (s: DemuxStats)
        ensures
            s == (DemuxStats { bytes_received: 0, messages_received: 0, pads_created: 0, errors: 0 }),
    {
        DemuxStats { bytes_received: 0, messages_received: 0, pads_created: 0, errors: 0 }
    }

    /// Count a pushed buffer of `len` bytes (counters saturate).
    pub fn record_buffer(&mut self, len: usize)
        ensures
            final(self).bytes_received == crate::zenohsrc::clamp(
                old(self).bytes_received + len,
                0,
                u64::MAX as int,
            ),
            final(self).messages_received == crate::zenohsrc::clamp(
                old(self).messages_received + 1,
                0,
                u64::MAX as int,
            ),
            final(self).pads_created == old(self).pads_created,
            final(self).errors == old(self).errors,
    {
        self.bytes_received = self.bytes_received.saturating_add(len as u64);
        self.messages_received = self.messages_received.saturating_add(1);
    }

    /// Count a created pad (the counter saturates).
    pub fn record_pad(&mut self)
        ensures
            final(self).pads_created == crate::zenohsrc::clamp(
                old(self).pads_created + 1,
                0,
                u64::MAX as int,
            ),
            final(self).bytes_received == old(self).bytes_received,
            final(self).messages_received == old(self).messages_received,
            final(self).errors == old(self).errors,
    {
        self.pads_created = self.pads_created.saturating_add(1);
    }

    /// Count an error (the counter saturates).
    pub fn record_error(&mut self)
        ensures
            final(self).errors == crate::zenohsrc::clamp(old(self).errors + 1, 0, u64::MAX as int),
            final(self).bytes_received == old(self).bytes_received,
            final(self).messages_received == old(self).messages_received,
            final(self).pads_created == old(self).pads_created,
    {
        self.errors = self.errors.saturating_add(1);
    }
}

/// A buffer made from a sample for one of the demultiplexer's pads.
pub struct DemuxBuffer {
    /// The payload, decompressed.
    pub data: Vec<u8>,
    /// The caps the metadata names, to be sent on the pad when it has none.
    pub caps: Option<String>,
    /// The buffer's timing: the metadata's fields over an unset buffer.
    pub timing: BufferTiming,
    /// Why the attachment did not parse, if it did not.
    pub metadata_warning: Option<String>,
}

/// Turn a sample into a buffer for a pad: the attachment, if any, is read as
/// metadata (one that does not parse is reported and ignored), the payload is
/// decompressed as the metadata says and the metadata's timing is applied.
/// A payload that does not decompress is refused, to be counted as an error
/// and skipped.
pub fn demux_sample(attachment: Option<&[u8]>, payload: &[u8]) -> (r: Result<
    DemuxBuffer,
    crate::compression::CompressionError,
>)
    ensures
        match decode_spec(
            match attachment {
                Some(a) => Some(a@),
                None => None,
            },
            payload@,
        ) {
            Err(f) => r matches Err(e) && e@ == f,
            Ok((d, meta)) => r matches Ok(b) && b.data@ == d && b.timing == match meta {
                Some(m) => timing_from(fresh_timing(), m),
                None => fresh_timing(),
            } && opt_string_view(b.caps) == match meta {
                Some(m) => m.caps,
                None => None,
            } && (b.metadata_warning is Some <==> (attachment is Some && meta is None)) && (
            b.metadata_warning matches Some(w) ==> parse_attachment(attachment->Some_0@) == Err::<
                MetadataFields,
                Seq<char>,
            >(w@)) && (meta is Some ==> carries_timing(meta->Some_0, b.timing)),
        },
{
    let decoded = match decode_sample(attachment, payload) {
        Ok(d) => d,
        Err(e) => return Err(e),
    };
    let mut timing = fresh_buffer_timing();
    let mut caps: Option<String> = None;
    if let Some(m) = &decoded.metadata {
        m.apply_to_buffer(&mut timing);
        if let Some(c) = m.caps() {
            caps = Some(String::from_str(c));
        }
    }
    Ok(DemuxBuffer { data: decoded.data, caps, timing, metadata_warning: decoded.metadata_error })
}

/// Characters other than `*` and space are kept one for one: a `/` becomes
/// `_` when `slash` holds, every other character stays.
pub proof fn lemma_pad_chars_plain(s: Seq<char>, slash: bool)
    requires
        !s.contains('*'),
        !s.contains(' '),
    ensures
        pad_chars(s, slash).len() == s.len(),
        forall|i: int|
            0 <= i < s.len() ==> #[trigger] pad_chars(s, slash)[i] == (if slash && s[i] == '/' {
                '_'
            } else {
                s[i]
            }),
    decreases s.len(),
{
    if s.len() > 0 {
        let d = s.drop_last();
        assert(!d.contains('*')) by {
            if d.contains('*') {
                let i = choose|i: int| 0 <= i < d.len() && d[i] == '*';
                assert(s[i] == '*');
            }
        }
        assert(!d.contains(' ')) by {
            if d.contains(' ') {
                let i = choose|i: int| 0 <= i < d.len() && d[i] == ' ';
                assert(s[i] == ' ');
            }
        }
        lemma_pad_chars_plain(d, slash);
        let c = s.last();
        assert(s.contains(c));
        assert(c != '*' && c != ' ');
        let p = pad_chars(d, slash);
        assert(pad_chars(s, slash) == p + pad_char(c, slash));
        assert forall|i: int| 0 <= i < s.len() implies #[trigger] pad_chars(s, slash)[i] == (if slash
            && s[i] == '/' {
            '_'
        } else {
            s[i]
        }) by {
            if i < d.len() {
                assert(pad_chars(s, slash)[i] == p[i]);
                assert(s[i] == d[i]);
            }
        }
    }
}

/// The last-segment pad name is made of the text after the key expression's
/// last `/` (the whole key expression when it has none), with `*` and spaces
/// replaced; a segment without them is the name itself. The full-path name
/// keeps every character but `/`, `*` and space, turning `/` into `_`.
pub proof fn lemma_pad_name_parts(k: Seq<char>, j: int)
    ensures
        !k.contains('/') ==> pad_name_of(k, PadNaming::LastSegment) == pad_chars(k, false),
        (0 <= j < k.len() && k[j] == '/' && (forall|i: int| j < i < k.len() ==> k[i] != '/'))
            ==> pad_name_of(k, PadNaming::LastSegment) == pad_chars(k.skip(j + 1), false),
        (0 <= j < k.len() && k[j] == '/' && (forall|i: int| j < i < k.len() ==> k[i] != '/')
            && !k.skip(j + 1).contains('*') && !k.skip(j + 1).contains(' ')) ==> pad_name_of(
            k,
            PadNaming::LastSegment,
        ) == k.skip(j + 1),
        (!k.contains('*') && !k.contains(' ')) ==> pad_name_of(k, PadNaming::FullPath).len()
            == k.len() && forall|i: int|
            0 <= i < k.len() ==> #[trigger] pad_name_of(k, PadNaming::FullPath)[i] == (if k[i]
                == '/' {
                '_'
            } else {
                k[i]
            }),
{
    if !k.contains('/') {
        lemma_split_no_sep(k, '/');
    }
    if 0 <= j < k.len() && k[j] == '/' && (forall|i: int| j < i < k.len() ==> k[i] != '/') {
        let a = k.take(j);
        let b = k.skip(j + 1);
        assert(!b.contains('/')) by {
            if b.contains('/') {
                let i = choose|i: int| 0 <= i < b.len() && b[i] == '/';
                assert(k[j + 1 + i] == '/');
            }
        }
        assert(k =~= a + seq!['/'] + b);
        lemma_split_append(a, b, '/');
        if !b.contains('*') && !b.contains(' ') {
            lemma_pad_chars_plain(b, false);
            assert(pad_chars(b, false) =~= b);
        }
    }
    if !k.contains('*') && !k.contains(' ') {
        lemma_pad_chars_plain(k, true);
    }
}

/// `pad_chars` leaves no `*` or space, and with `slash` no `/` either.
pub proof fn lemma_pad_chars_clean(s: Seq<char>, slash: bool)
    ensures
        !pad_chars(s, slash).contains('*'),
        !pad_chars(s, slash).contains(' '),
        slash ==> !pad_chars(s, slash).contains('/'),
    decreases s.len(),
{
    if s.len() > 0 {
        lemma_pad_chars_clean(s.drop_last(), slash);
        let a = pad_chars(s.drop_last(), slash);
        let b = pad_char(s.last(), slash);
        reveal_strlit("wildcard");
        assert(!b.contains('*') && !b.contains(' ') && (slash ==> !b.contains('/')));
        assert forall|i: int| 0 <= i < (a + b).len() implies (a + b)[i] != '*' && (a + b)[i]
            != ' ' && (slash ==> (a + b)[i] != '/') by {
            if i < a.len() {
                assert((a + b)[i] == a[i]);
            } else {
                assert((a + b)[i] == b[i - a.len()]);
            }
        }
    }
}

/// Pad names hold no `*` or space; full-path names hold no `/` either; hash
/// names are `pad_` and eight hexadecimal digits.
pub proof fn lemma_pad_names_clean(key_expr: Seq<char>)
    ensures
        !pad_name_of(key_expr, PadNaming::FullPath).contains('/'),
        !pad_name_of(key_expr, PadNaming::FullPath).contains('*'),
        !pad_name_of(key_expr, PadNaming::FullPath).contains(' '),
        !pad_name_of(key_expr, PadNaming::LastSegment).contains('*'),
        !pad_name_of(key_expr, PadNaming::LastSegment).contains(' '),
        pad_name_of(key_expr, PadNaming::Hash).len() == 12,
        pad_name_of(key_expr, PadNaming::Hash).take(4) == "pad_"@,
{
    lemma_pad_chars_clean(key_expr, true);
    lemma_split_nonempty(key_expr, '/');
    lemma_pad_chars_clean(split(key_expr, '/').last(), false);
    reveal_strlit("pad_");
    let h = fnv1a(vstd::utf8::encode_utf8(key_expr)) as nat;
    lemma_hex_digits_len(h, 8);
    assert(pad_name_of(key_expr, PadNaming::Hash).take(4) =~= "pad_"@);
}

proof fn lemma_hex_digits_len(n: nat, width: nat)
    ensures
        hex_digits(n, width).len() == width,
    decreases width,
{
    if width > 0 {
        lemma_hex_digits_len(n / 16, (width - 1) as nat);
    }
}

/// What a demultiplexer builder holds, as character sequences.
pub struct DemuxBuilderView {
    pub key_expr: Seq<char>,
    pub config: Option<Seq<char>>,
    pub pad_naming: Option<PadNaming>,
    pub receive_timeout_ms: Option<u64>,
}

/// Builder for creating a demultiplexer with custom configuration.
pub struct ZenohDemuxBuilder {
    key_expr: String,
    config: Option<String>,
    pad_naming: Option<PadNaming>,
    receive_timeout_ms: Option<u64>,
}

/// The properties a demultiplexer builder sets, in order: the key expression, then
/// each option that was given.
pub open spec fn zenohdemuxbuilder_props(b: DemuxBuilderView) -> Seq<(Seq<char>, PropView)> {
    let p0 = seq![("key-expr"@, PropView::Str(b.key_expr))];
    let p1 = match b.config {
        Some(v) => p0.push(("config"@, PropView::OptStr(Some(v)))),
        None => p0,
    };
    let p2 = match b.pad_naming {
        Some(v) => p1.push(("pad-naming"@, PropView::Naming(v))),
        None => p1,
    };
    let p3 = match b.receive_timeout_ms {
        Some(v) => p2.push(("receive-timeout-ms"@, PropView::U64(v))),
        None => p2,
    };
    p3
}

impl ZenohDemuxBuilder {
    /// What the builder holds.
    pub closed spec fn view(&self) -> DemuxBuilderView {
        DemuxBuilderView {
            key_expr: self.key_expr@,
            config: opt_string_view(self.config),
            pad_naming: self.pad_naming,
            receive_timeout_ms: self.receive_timeout_ms,
        }
    }

    /// Creates a new builder with the required key expression.
    pub fn new(key_expr: &str) -> (b: Self)
        ensures
            b@ == (DemuxBuilderView { key_expr: key_expr@, config: None, pad_naming: None, receive_timeout_ms: None }),
    {
        ZenohDemuxBuilder { key_expr: String::from_str(key_expr), config: None, pad_naming: None, receive_timeout_ms: None }
    }

    /// Sets the path to a Zenoh configuration file.
    pub fn config(self, v: &str) -> (b: Self)
        ensures
            b@ == (DemuxBuilderView { config: Some(v@), ..self@ }),
    {
        ZenohDemuxBuilder { config: Some(String::from_str(v)), ..self }
    }

    /// Sets the pad naming strategy.
    pub fn pad_naming(self, v: PadNaming) -> (b: Self)
        ensures
            b@ == (DemuxBuilderView { pad_naming: Some(v), ..self@ }),
    {
        ZenohDemuxBuilder { pad_naming: Some(v), ..self }
    }

    /// Sets the receive timeout in milliseconds.
    pub fn receive_timeout_ms(self, v: u64) -> (b: Self)
        ensures
            b@ == (DemuxBuilderView { receive_timeout_ms: Some(v), ..self@ }),
    {
        ZenohDemuxBuilder { receive_timeout_ms: Some(v), ..self }
    }

    /// The properties to make the demultiplexer with.
    pub fn build(self) -> (e: ElementProperties)
        ensures
            props_view(e.properties@) == zenohdemuxbuilder_props(self@),
            e.session is None,
    {
        let ghost v = self@;
        let mut props: Vec<(String, PropValue)> = Vec::new();
        push_prop(&mut props, "key-expr", PropValue::Str(self.key_expr));
        assert(props_view(props@) =~= seq![("key-expr"@, PropView::Str(v.key_expr))]);
        if let Some(x) = self.config {
            push_prop(&mut props, "config", PropValue::OptStr(Some(x)));
        }
        if let Some(x) = self.pad_naming {
            push_prop(&mut props, "pad-naming", PropValue::Naming(x));
        }
        if let Some(x) = self.receive_timeout_ms {
            push_prop(&mut props, "receive-timeout-ms", PropValue::U64(x));
        }
        ElementProperties { properties: props, session: None }
    }
}

} // verus!
