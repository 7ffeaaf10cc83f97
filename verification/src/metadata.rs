//! Attachment metadata: buffer caps, timing, flags, compression and user
//! key/value pairs, written as `key=value` lines.

use vstd::prelude::*;
use crate::text::{
    append_chars, chars_of, decimal, decimal_u64, eq_str, escape_chars, escape_newlines,
    find_char, first_index, has_escape_pair, join, join_chars, lemma_first_index,
    lemma_first_index_after, lemma_split_join, lemma_escape_no_newline, lemma_unescape_escape,
    lemma_escape_last, lemma_decimal_digits, lemma_parse_decimal, is_digit, lemma_unescape_plain,
    strip_cr, lemma_lines_of_join,
    lemma_trim_plain, lines_chars, lines_of, parse_u64, parse_u64_chars, split, split_chars,
    starts_with, starts_with_str, string_of, trim, trim_chars, trim_prefixes, trim_prefixes_chars,
    unescape_chars, unescape_newlines, views,
};
use vstd::utf8::{decode_utf8, encode_utf8, valid_utf8};

pub mod keys;

verus! {

/// The buffer flags carried in attachments.
#[derive(Debug, Clone, Copy, PartialEq, Eq, Structural)]
pub struct BufferFlags {
    pub live: bool,
    pub discont: bool,
    pub delta_unit: bool,
    pub header: bool,
    pub gap: bool,
    pub droppable: bool,
    pub marker: bool,
    pub corrupted: bool,
    pub non_droppable: bool,
}

impl BufferFlags {
    /// No flag set.
    pub open spec fn none_set() -> BufferFlags {
        BufferFlags {
            live: false,
            discont: false,
            delta_unit: false,
            header: false,
            gap: false,
            droppable: false,
            marker: false,
            corrupted: false,
            non_droppable: false,
        }
    }

    /// No flag set.
    pub fn empty() -> (f: BufferFlags)
        ensures
            f == BufferFlags::none_set(),
    {
        BufferFlags {
            live: false,
            discont: false,
            delta_unit: false,
            header: false,
            gap: false,
            droppable: false,
            marker: false,
            corrupted: false,
            non_droppable: false,
        }
    }

    /// Whether no flag is set.
    pub fn is_empty(&self) -> (r: bool)
        ensures
            r == (*self == BufferFlags::none_set()),
    {
        !(self.live || self.discont || self.delta_unit || self.header || self.gap || self.droppable
            || self.marker || self.corrupted || self.non_droppable)
    }
}

/// `parts` with `name` added when `on` holds.
pub open spec fn push_if(parts: Seq<Seq<char>>, on: bool, name: Seq<char>) -> Seq<Seq<char>> {
    if on {
        parts.push(name)
    } else {
        parts
    }
}

/// The names of the set flags, in the order they are written.
pub open spec fn flag_names(f: BufferFlags) -> Seq<Seq<char>> {
    let p0 = Seq::<Seq<char>>::empty();
    let p1 = push_if(p0, f.live, "live"@);
    let p2 = push_if(p1, f.discont, "discont"@);
    let p3 = push_if(p2, f.delta_unit, "delta"@);
    let p4 = push_if(p3, f.header, "header"@);
    let p5 = push_if(p4, f.gap, "gap"@);
    let p6 = push_if(p5, f.droppable, "droppable"@);
    let p7 = push_if(p6, f.marker, "marker"@);
    let p8 = push_if(p7, f.corrupted, "corrupted"@);
    push_if(p8, f.non_droppable, "non-droppable"@)
}

/// The comma-separated names of the set flags.
pub open spec fn flags_text(f: BufferFlags) -> Seq<char> {
    join(flag_names(f), seq![','])
}

/// `f` with the flag of `name` set; unknown names leave it unchanged.
#[verifier::opaque]
pub open spec fn with_flag_named(f: BufferFlags, name: Seq<char>) -> BufferFlags {
    if name == "live"@ {
        BufferFlags { live: true, ..f }
    } else if name == "discont"@ {
        BufferFlags { discont: true, ..f }
    } else if name == "delta"@ {
        BufferFlags { delta_unit: true, ..f }
    } else if name == "header"@ {
        BufferFlags { header: true, ..f }
    } else if name == "gap"@ {
        BufferFlags { gap: true, ..f }
    } else if name == "droppable"@ {
        BufferFlags { droppable: true, ..f }
    } else if name == "marker"@ {
        BufferFlags { marker: true, ..f }
    } else if name == "corrupted"@ {
        BufferFlags { corrupted: true, ..f }
    } else if name == "non-droppable"@ {
        BufferFlags { non_droppable: true, ..f }
    } else {
        f
    }
}

/// The flags named by the pieces, each trimmed.
pub open spec fn flags_of_parts(parts: Seq<Seq<char>>) -> BufferFlags
    decreases parts.len(),
{
    if parts.len() == 0 {
        BufferFlags::none_set()
    } else {
        with_flag_named(flags_of_parts(parts.drop_last()), trim(parts.last()))
    }
}

/// The flags named in comma-separated text.
pub open spec fn flags_of_text(s: Seq<char>) -> BufferFlags {
    flags_of_parts(split(s, ','))
}

/// Convert buffer flags to a comma-separated string
pub fn flags_to_string(flags: BufferFlags) -> (s: String)
    ensures
        s@ == flags_text(flags),
{
    let v = flags_to_chars(flags);
    string_of(v.as_slice())
}

fn push_name(parts: &mut Vec<Vec<char>>, on: bool, name: &str)
    ensures
        views(final(parts)@) == push_if(views(old(parts)@), on, name@),
{
    if on {
        let c = chars_of(name);
        let ghost before = parts@;
        parts.push(c);
        assert(views(parts@) =~= views(before).push(name@));
    }
}

fn flags_to_chars(flags: BufferFlags) -> (v: Vec<char>)
    ensures
        v@ == flags_text(flags),
{
    let mut parts: Vec<Vec<char>> = Vec::new();
    assert(views(parts@) =~= Seq::<Seq<char>>::empty());
    push_name(&mut parts, flags.live, "live");
    push_name(&mut parts, flags.discont, "discont");
    push_name(&mut parts, flags.delta_unit, "delta");
    push_name(&mut parts, flags.header, "header");
    push_name(&mut parts, flags.gap, "gap");
    push_name(&mut parts, flags.droppable, "droppable");
    push_name(&mut parts, flags.marker, "marker");
    push_name(&mut parts, flags.corrupted, "corrupted");
    push_name(&mut parts, flags.non_droppable, "non-droppable");
    join_chars(&parts, ',')
}

fn set_flag_named(f: BufferFlags, name: &[char]) -> (r: BufferFlags)
    ensures
        r == with_flag_named(f, name@),
{
    reveal(with_flag_named);
    if eq_str(name, "live") {
        BufferFlags { live: true, ..f }
    } else if eq_str(name, "discont") {
        BufferFlags { discont: true, ..f }
    } else if eq_str(name, "delta") {
        BufferFlags { delta_unit: true, ..f }
    } else if eq_str(name, "header") {
        BufferFlags { header: true, ..f }
    } else if eq_str(name, "gap") {
        BufferFlags { gap: true, ..f }
    } else if eq_str(name, "droppable") {
        BufferFlags { droppable: true, ..f }
    } else if eq_str(name, "marker") {
        BufferFlags { marker: true, ..f }
    } else if eq_str(name, "corrupted") {
        BufferFlags { corrupted: true, ..f }
    } else if eq_str(name, "non-droppable") {
        BufferFlags { non_droppable: true, ..f }
    } else {
        f
    }
}

/// Parse a comma-separated string back to buffer flags; unknown names are
/// ignored.
pub fn string_to_flags(s: &str) -> (f: BufferFlags)
    ensures
        f == flags_of_text(s@),
{
    let c = chars_of(s);
    chars_to_flags(c.as_slice())
}

fn chars_to_flags(s: &[char]) -> (f: BufferFlags)
    ensures
        f == flags_of_text(s@),
{
    let parts = split_chars(s, ',');
    let mut f = BufferFlags::empty();
    let mut i: usize = 0;
    while i < parts.len()
        invariant
            i <= parts.len(),
            views(parts@) == split(s@, ','),
            f == flags_of_parts(views(parts@).take(i as int)),
        decreases parts.len() - i,
    {
        let t = trim_chars(parts[i].as_slice());
        f = set_flag_named(f, t.as_slice());
        proof {
            let q = views(parts@).take(i as int + 1);
            assert(q.drop_last() =~= views(parts@).take(i as int));
            assert(q.last() == parts@[i as int]@);
        }
        i = i + 1;
    }
    assert(views(parts@).take(parts.len() as int) =~= views(parts@));
    f
}

proof fn lemma_flag_name_lengths()
    ensures
        "live"@.len() == 4,
        "discont"@.len() == 7,
        "delta"@.len() == 5,
        "header"@.len() == 6,
        "gap"@.len() == 3,
        "droppable"@.len() == 9,
        "marker"@.len() == 6,
        "corrupted"@.len() == 9,
        "non-droppable"@.len() == 13,
{
    reveal_strlit("live");
    reveal_strlit("discont");
    reveal_strlit("delta");
    reveal_strlit("header");
    reveal_strlit("gap");
    reveal_strlit("droppable");
    reveal_strlit("marker");
    reveal_strlit("corrupted");
    reveal_strlit("non-droppable");
}

/// The flag names are told apart.
proof fn lemma_flag_names_distinct()
    ensures
        "live"@ != "discont"@,
        "live"@ != "delta"@,
        "live"@ != "header"@,
        "live"@ != "gap"@,
        "live"@ != "droppable"@,
        "live"@ != "marker"@,
        "live"@ != "corrupted"@,
        "live"@ != "non-droppable"@,
        "discont"@ != "delta"@,
        "discont"@ != "header"@,
        "discont"@ != "gap"@,
        "discont"@ != "droppable"@,
        "discont"@ != "marker"@,
        "discont"@ != "corrupted"@,
        "discont"@ != "non-droppable"@,
        "delta"@ != "header"@,
        "delta"@ != "gap"@,
        "delta"@ != "droppable"@,
        "delta"@ != "marker"@,
        "delta"@ != "corrupted"@,
        "delta"@ != "non-droppable"@,
        "header"@ != "gap"@,
        "header"@ != "droppable"@,
        "header"@ != "marker"@,
        "header"@ != "corrupted"@,
        "header"@ != "non-droppable"@,
        "gap"@ != "droppable"@,
        "gap"@ != "marker"@,
        "gap"@ != "corrupted"@,
        "gap"@ != "non-droppable"@,
        "droppable"@ != "marker"@,
        "droppable"@ != "corrupted"@,
        "droppable"@ != "non-droppable"@,
        "marker"@ != "corrupted"@,
        "marker"@ != "non-droppable"@,
        "corrupted"@ != "non-droppable"@,
{
    reveal_strlit("live");
    reveal_strlit("discont");
    reveal_strlit("delta");
    reveal_strlit("header");
    reveal_strlit("gap");
    reveal_strlit("droppable");
    reveal_strlit("marker");
    reveal_strlit("corrupted");
    reveal_strlit("non-droppable");
    assert("live"@.len() == 4);
    assert("discont"@.len() == 7);
    assert("delta"@.len() == 5);
    assert("header"@.len() == 6);
    assert("gap"@.len() == 3);
    assert("droppable"@.len() == 9);
    assert("marker"@.len() == 6);
    assert("corrupted"@.len() == 9);
    assert("non-droppable"@.len() == 13);
    assert("header"@[0] != "marker"@[0]);
    assert("droppable"@[0] != "corrupted"@[0]);
}

/// A flag name: no comma, and no whitespace at either end.
pub open spec fn plain_name(n: Seq<char>) -> bool {
    !n.contains(',') && trim(n) == n && !n.contains('\n') && !n.contains('\r')
}

proof fn lemma_names_plain()
    ensures
        plain_name("live"@),
        plain_name("discont"@),
        plain_name("delta"@),
        plain_name("header"@),
        plain_name("gap"@),
        plain_name("droppable"@),
        plain_name("marker"@),
        plain_name("corrupted"@),
        plain_name("non-droppable"@),
{
    reveal_strlit("live");
    reveal_strlit("discont");
    reveal_strlit("delta");
    reveal_strlit("header");
    reveal_strlit("gap");
    reveal_strlit("droppable");
    reveal_strlit("marker");
    reveal_strlit("corrupted");
    reveal_strlit("non-droppable");
    lemma_trim_plain("live"@);
    lemma_trim_plain("discont"@);
    lemma_trim_plain("delta"@);
    lemma_trim_plain("header"@);
    lemma_trim_plain("gap"@);
    lemma_trim_plain("droppable"@);
    lemma_trim_plain("marker"@);
    lemma_trim_plain("corrupted"@);
    lemma_trim_plain("non-droppable"@);
}

proof fn lemma_push_if_plain(parts: Seq<Seq<char>>, on: bool, name: Seq<char>)
    requires
        forall|i: int| 0 <= i < parts.len() ==> plain_name(#[trigger] parts[i]),
        plain_name(name),
    ensures
        forall|i: int|
            0 <= i < push_if(parts, on, name).len() ==> plain_name(
                #[trigger] push_if(parts, on, name)[i],
            ),
{
    if on {
        assert forall|i: int| 0 <= i < parts.push(name).len() implies plain_name(
            #[trigger] parts.push(name)[i],
        ) by {
            if i < parts.len() {
                assert(parts.push(name)[i] == parts[i]);
            }
        }
    }
}

/// The flag names hold no comma, and no whitespace at either end.
proof fn lemma_flag_names_plain(f: BufferFlags)
    ensures
        forall|i: int| 0 <= i < flag_names(f).len() ==> plain_name(#[trigger] flag_names(f)[i]),
{
    lemma_names_plain();
    let p0 = Seq::<Seq<char>>::empty();
    let p1 = push_if(p0, f.live, "live"@);
    let p2 = push_if(p1, f.discont, "discont"@);
    let p3 = push_if(p2, f.delta_unit, "delta"@);
    let p4 = push_if(p3, f.header, "header"@);
    let p5 = push_if(p4, f.gap, "gap"@);
    let p6 = push_if(p5, f.droppable, "droppable"@);
    let p7 = push_if(p6, f.marker, "marker"@);
    let p8 = push_if(p7, f.corrupted, "corrupted"@);
    lemma_push_if_plain(p0, f.live, "live"@);
    lemma_push_if_plain(p1, f.discont, "discont"@);
    lemma_push_if_plain(p2, f.delta_unit, "delta"@);
    lemma_push_if_plain(p3, f.header, "header"@);
    lemma_push_if_plain(p4, f.gap, "gap"@);
    lemma_push_if_plain(p5, f.droppable, "droppable"@);
    lemma_push_if_plain(p6, f.marker, "marker"@);
    lemma_push_if_plain(p7, f.corrupted, "corrupted"@);
    lemma_push_if_plain(p8, f.non_droppable, "non-droppable"@);
}

/// What each flag name sets.
proof fn lemma_with_flag_named_known(f: BufferFlags)
    ensures
        with_flag_named(f, "live"@) == (BufferFlags { live: true, ..f }),
        with_flag_named(f, "discont"@) == (BufferFlags { discont: true, ..f }),
        with_flag_named(f, "delta"@) == (BufferFlags { delta_unit: true, ..f }),
        with_flag_named(f, "header"@) == (BufferFlags { header: true, ..f }),
        with_flag_named(f, "gap"@) == (BufferFlags { gap: true, ..f }),
        with_flag_named(f, "droppable"@) == (BufferFlags { droppable: true, ..f }),
        with_flag_named(f, "marker"@) == (BufferFlags { marker: true, ..f }),
        with_flag_named(f, "corrupted"@) == (BufferFlags { corrupted: true, ..f }),
        with_flag_named(f, "non-droppable"@) == (BufferFlags { non_droppable: true, ..f }),
        with_flag_named(f, Seq::<char>::empty()) == f,
{
    reveal(with_flag_named);
    lemma_flag_names_distinct();
    lemma_flag_name_lengths();
    reveal_strlit("live");
    reveal_strlit("discont");
    reveal_strlit("delta");
    reveal_strlit("header");
    reveal_strlit("gap");
    reveal_strlit("droppable");
    reveal_strlit("marker");
    reveal_strlit("corrupted");
    reveal_strlit("non-droppable");
}

proof fn lemma_flags_step(p: Seq<Seq<char>>, on: bool, name: Seq<char>)
    requires
        trim(name) == name,
    ensures
        flags_of_parts(push_if(p, on, name)) == (if on {
            with_flag_named(flags_of_parts(p), name)
        } else {
            flags_of_parts(p)
        }),
{
    if on {
        assert(p.push(name).drop_last() =~= p);
    }
}

proof fn lemma_flag_names_comma_free(f: BufferFlags)
    ensures
        forall|i: int| 0 <= i < flag_names(f).len() ==> !(#[trigger] flag_names(f)[i]).contains(','),
{
    lemma_flag_names_plain(f);
    let names = flag_names(f);
    assert forall|i: int| 0 <= i < names.len() implies !(#[trigger] names[i]).contains(',') by {
        assert(plain_name(names[i]));
    }
}

proof fn lemma_names_trimmed()
    ensures
        trim("live"@) == "live"@,
        trim("discont"@) == "discont"@,
        trim("delta"@) == "delta"@,
        trim("header"@) == "header"@,
        trim("gap"@) == "gap"@,
        trim("droppable"@) == "droppable"@,
        trim("marker"@) == "marker"@,
        trim("corrupted"@) == "corrupted"@,
        trim("non-droppable"@) == "non-droppable"@,
{
    lemma_names_plain();
}

/// Joined pieces are at least as long as the last piece.
proof fn lemma_join_len_last(parts: Seq<Seq<char>>, sep: Seq<char>)
    requires
        parts.len() > 0,
    ensures
        join(parts, sep).len() >= parts.last().len(),
{
    if parts.len() > 1 {
        assert(join(parts, sep) == join(parts.drop_last(), sep) + sep + parts.last());
    }
}

/// Flags with any flag set are written as a non-empty text.
pub proof fn lemma_flags_text_nonempty(f: BufferFlags)
    requires
        f != BufferFlags::none_set(),
    ensures
        flags_text(f).len() > 0,
{
    reveal_strlit("live");
    reveal_strlit("discont");
    reveal_strlit("delta");
    reveal_strlit("header");
    reveal_strlit("gap");
    reveal_strlit("droppable");
    reveal_strlit("marker");
    reveal_strlit("corrupted");
    reveal_strlit("non-droppable");
    let names = flag_names(f);
    assert(names.len() > 0);
    assert(names.last().len() > 0);
    lemma_join_len_last(names, seq![',']);
}

/// Writing flags as text and reading the text back gives the same flags.
#[verifier::spinoff_prover]
#[verifier::rlimit(80)]
pub proof fn lemma_flags_roundtrip(f: BufferFlags)
    ensures
        flags_of_text(flags_text(f)) == f,
{
    lemma_flag_names_comma_free(f);
    lemma_names_trimmed();
    let names = flag_names(f);
    let e = BufferFlags::none_set();
    if names.len() == 0 {
        assert(flags_text(f) == Seq::<char>::empty());
        assert(split(Seq::<char>::empty(), ',') == seq![Seq::<char>::empty()]);
        let one = seq![Seq::<char>::empty()];
        assert(one.drop_last() =~= Seq::<Seq<char>>::empty());
        assert(trim(Seq::<char>::empty()) == Seq::<char>::empty());
        lemma_with_flag_named_known(e);
        assert(one.last() == Seq::<char>::empty());
        assert(flags_of_parts(Seq::<Seq<char>>::empty()) == e);
        assert(flags_of_parts(one) == with_flag_named(e, Seq::<char>::empty()));
        assert(flags_of_parts(one) == e);
        assert(!f.live);
        assert(!f.discont);
        assert(!f.delta_unit);
        assert(!f.header);
        assert(!f.gap);
        assert(!f.droppable);
        assert(!f.marker);
        assert(!f.corrupted);
        assert(!f.non_droppable);
    } else {
        lemma_split_join(names, ',');
        let p0 = Seq::<Seq<char>>::empty();
        let p1 = push_if(p0, f.live, "live"@);
        let p2 = push_if(p1, f.discont, "discont"@);
        let p3 = push_if(p2, f.delta_unit, "delta"@);
        let p4 = push_if(p3, f.header, "header"@);
        let p5 = push_if(p4, f.gap, "gap"@);
        let p6 = push_if(p5, f.droppable, "droppable"@);
        let p7 = push_if(p6, f.marker, "marker"@);
        let p8 = push_if(p7, f.corrupted, "corrupted"@);
        lemma_flags_step(p0, f.live, "live"@);
        let g1 = flags_of_parts(p1);
        lemma_with_flag_named_known(e);
        assert(g1 == BufferFlags { live: f.live, ..e });
        lemma_flags_step(p1, f.discont, "discont"@);
        lemma_with_flag_named_known(g1);
        let g2 = flags_of_parts(p2);
        assert(g2 == BufferFlags { discont: f.discont, ..g1 });
        lemma_flags_step(p2, f.delta_unit, "delta"@);
        lemma_with_flag_named_known(g2);
        let g3 = flags_of_parts(p3);
        assert(g3 == BufferFlags { delta_unit: f.delta_unit, ..g2 });
        lemma_flags_step(p3, f.header, "header"@);
        lemma_with_flag_named_known(g3);
        let g4 = flags_of_parts(p4);
        assert(g4 == BufferFlags { header: f.header, ..g3 });
        lemma_flags_step(p4, f.gap, "gap"@);
        lemma_with_flag_named_known(g4);
        let g5 = flags_of_parts(p5);
        assert(g5 == BufferFlags { gap: f.gap, ..g4 });
        lemma_flags_step(p5, f.droppable, "droppable"@);
        lemma_with_flag_named_known(g5);
        let g6 = flags_of_parts(p6);
        assert(g6 == BufferFlags { droppable: f.droppable, ..g5 });
        lemma_flags_step(p6, f.marker, "marker"@);
        lemma_with_flag_named_known(g6);
        let g7 = flags_of_parts(p7);
        assert(g7 == BufferFlags { marker: f.marker, ..g6 });
        lemma_flags_step(p7, f.corrupted, "corrupted"@);
        lemma_with_flag_named_known(g7);
        let g8 = flags_of_parts(p8);
        assert(g8 == BufferFlags { corrupted: f.corrupted, ..g7 });
        lemma_flags_step(p8, f.non_droppable, "non-droppable"@);
        lemma_with_flag_named_known(g8);
        let g9 = flags_of_parts(names);
        assert(g9 == BufferFlags { non_droppable: f.non_droppable, ..g8 });
        assert(g9 == f);
    }
}

} // verus!

verus! {

/// Current metadata format version (1.1 adds buffer timing support)
pub const METADATA_VERSION: &'static str = "1.1";

/// What attachment metadata holds, as character sequences.
pub struct MetadataFields {
    pub caps: Option<Seq<char>>,
    pub pts: Option<u64>,
    pub dts: Option<u64>,
    pub duration: Option<u64>,
    pub offset: Option<u64>,
    pub offset_end: Option<u64>,
    pub flags: Option<BufferFlags>,
    pub compression: Option<Seq<char>>,
    pub key_expr: Option<Seq<char>>,
    pub user: Seq<(Seq<char>, Seq<char>)>,
    pub version: Option<Seq<char>>,
}

/// An optional string as an optional character sequence.
pub open spec fn opt_view(o: Option<String>) -> Option<Seq<char>> {
    match o {
        Some(s) => Some(s@),
        None => None,
    }
}

/// Key/value string pairs as character sequence pairs.
pub open spec fn pairs_view(v: Seq<(String, String)>) -> Seq<(Seq<char>, Seq<char>)> {
    v.map_values(|p: (String, String)| (p.0@, p.1@))
}

/// Metadata with nothing set.
pub open spec fn no_fields() -> MetadataFields {
    MetadataFields {
        caps: None,
        pts: None,
        dts: None,
        duration: None,
        offset: None,
        offset_end: None,
        flags: None,
        compression: None,
        key_expr: None,
        user: Seq::empty(),
        version: None,
    }
}

/// The position of the entry with key `k`, or -1.
pub open spec fn key_position(entries: Seq<(Seq<char>, Seq<char>)>, k: Seq<char>) -> int
    decreases entries.len(),
{
    if entries.len() == 0 {
        -1
    } else if entries[0].0 == k {
        0
    } else {
        let r = key_position(entries.drop_first(), k);
        if r < 0 {
            -1
        } else {
            r + 1
        }
    }
}

/// The entries with the value of key `k` set to `v`: replaced in place when the
/// key is present, appended otherwise.
pub open spec fn upsert(entries: Seq<(Seq<char>, Seq<char>)>, k: Seq<char>, v: Seq<char>) -> Seq<
    (Seq<char>, Seq<char>),
> {
    let i = key_position(entries, k);
    if i >= 0 {
        entries.update(i, (k, v))
    } else {
        entries.push((k, v))
    }
}

/// Whether no two entries share a key.
pub open spec fn keys_unique(entries: Seq<(Seq<char>, Seq<char>)>) -> bool {
    forall|i: int, j: int|
        0 <= i < entries.len() && 0 <= j < entries.len() && i != j ==> #[trigger] entries[i].0
            != #[trigger] entries[j].0
}

/// Facts about the position of a key.
pub proof fn lemma_key_position(entries: Seq<(Seq<char>, Seq<char>)>, k: Seq<char>)
    ensures
        -1 <= key_position(entries, k) < entries.len(),
        key_position(entries, k) >= 0 ==> entries[key_position(entries, k)].0 == k,
        key_position(entries, k) < 0 ==> forall|i: int|
            0 <= i < entries.len() ==> #[trigger] entries[i].0 != k,
    decreases entries.len(),
{
    if entries.len() > 0 {
        lemma_key_position(entries.drop_first(), k);
        if entries[0].0 != k && key_position(entries.drop_first(), k) < 0 {
            assert forall|i: int| 0 <= i < entries.len() implies #[trigger] entries[i].0 != k by {
                if i > 0 {
                    assert(entries[i] == entries.drop_first()[i - 1]);
                }
            }
        }
    }
}

/// Setting a key keeps keys unique.
pub proof fn lemma_upsert_unique(entries: Seq<(Seq<char>, Seq<char>)>, k: Seq<char>, v: Seq<char>)
    requires
        keys_unique(entries),
    ensures
        keys_unique(upsert(entries, k, v)),
{
    lemma_key_position(entries, k);
}

/// Position of a key in the entries, with the exec strings.
fn find_key(entries: &Vec<(String, String)>, k: &String) -> (r: Option<usize>)
    ensures
        match r {
            Some(i) => i as int == key_position(pairs_view(entries@), k@),
            None => key_position(pairs_view(entries@), k@) < 0,
        },
{
    let ghost e = pairs_view(entries@);
    let mut i: usize = 0;
    assert(e.skip(0) =~= e);
    while i < entries.len()
        invariant
            i <= entries.len(),
            e == pairs_view(entries@),
            key_position(e, k@) == (if key_position(e.skip(i as int), k@) < 0 {
                -1
            } else {
                key_position(e.skip(i as int), k@) + i
            }),
        decreases entries.len() - i,
    {
        assert(e.skip(i as int)[0] == e[i as int]);
        assert(e[i as int].0 == entries@[i as int].0@);
        if entries[i].0 == *k {
            return Some(i);
        }
        assert(e.skip(i as int).drop_first() =~= e.skip(i as int + 1));
        i = i + 1;
    }
    None
}

/// Sets the value of a key: replaced in place when present, appended otherwise.
fn upsert_entry(entries: &mut Vec<(String, String)>, k: String, v: String)
    ensures
        pairs_view(final(entries)@) == upsert(pairs_view(old(entries)@), k@, v@),
{
    let ghost before = entries@;
    proof {
        lemma_key_position(pairs_view(before), k@);
    }
    match find_key(entries, &k) {
        Some(i) => {
            entries.set(i, (k, v));
            assert(pairs_view(entries@) =~= upsert(pairs_view(before), k@, v@));
        },
        None => {
            entries.push((k, v));
            assert(pairs_view(entries@) =~= upsert(pairs_view(before), k@, v@));
        },
    }
}

/// The buffer fields the attachment can carry, as a buffer holds them: an
/// offset of `u64::MAX` means none.
#[derive(Debug, Clone, Copy, PartialEq, Eq, Structural)]
pub struct BufferTiming {
    pub pts: Option<u64>,
    pub dts: Option<u64>,
    pub duration: Option<u64>,
    pub offset: u64,
    pub offset_end: u64,
    pub flags: BufferFlags,
}

/// Builder for attachments carrying metadata
pub struct MetadataBuilder {
    caps: Option<String>,
    pts: Option<u64>,
    dts: Option<u64>,
    duration: Option<u64>,
    offset: Option<u64>,
    offset_end: Option<u64>,
    flags: Option<BufferFlags>,
    compression: Option<String>,
    key_expr: Option<String>,
    user_metadata: Vec<(String, String)>,
}

impl View for MetadataBuilder {
    type V = MetadataFields;

    closed spec fn view(&self) -> MetadataFields {
        MetadataFields {
            caps: opt_view(self.caps),
            pts: self.pts,
            dts: self.dts,
            duration: self.duration,
            offset: self.offset,
            offset_end: self.offset_end,
            flags: self.flags,
            compression: opt_view(self.compression),
            key_expr: opt_view(self.key_expr),
            user: pairs_view(self.user_metadata@),
            version: None,
        }
    }
}

impl MetadataBuilder {
    #[verifier::type_invariant]
    spec fn unique_user_keys(self) -> bool {
        keys_unique(pairs_view(self.user_metadata@))
    }

    /// Create a new metadata builder
    pub fn new() -> (b: Self)
        ensures
            b@ == no_fields(),
    {
        let user: Vec<(String, String)> = Vec::new();
        assert(pairs_view(user@) =~= Seq::<(Seq<char>, Seq<char>)>::empty());
        let b = MetadataBuilder {
            caps: None,
            pts: None,
            dts: None,
            duration: None,
            offset: None,
            offset_end: None,
            flags: None,
            compression: None,
            key_expr: None,
            user_metadata: user,
        };
        b
    }

    /// Set the caps to transmit, as their serialized string
    pub fn caps(self, caps: &str) -> (b: Self)
        ensures
            b@ == (MetadataFields { caps: Some(caps@), ..self@ }),
    {
        proof {
            use_type_invariant(&self);
        }
        MetadataBuilder { caps: Some(String::from_str(caps)), ..self }
    }

    /// Set buffer timing information from a buffer: PTS, DTS, duration, offset,
    /// offset_end (each only when valid) and flags.
    pub fn buffer_timing(self, buffer: BufferTiming) -> (b: Self)
        ensures
            b@ == (MetadataFields {
                pts: buffer.pts,
                dts: buffer.dts,
                duration: buffer.duration,
                offset: if buffer.offset != u64::MAX {
                    Some(buffer.offset)
                } else {
                    self@.offset
                },
                offset_end: if buffer.offset_end != u64::MAX {
                    Some(buffer.offset_end)
                } else {
                    self@.offset_end
                },
                flags: Some(buffer.flags),
                ..self@
            }),
    {
        proof {
            use_type_invariant(&self);
        }
        let offset = if buffer.offset != u64::MAX {
            Some(buffer.offset)
        } else {
            self.offset
        };
        let offset_end = if buffer.offset_end != u64::MAX {
            Some(buffer.offset_end)
        } else {
            self.offset_end
        };
        MetadataBuilder {
            pts: buffer.pts,
            dts: buffer.dts,
            duration: buffer.duration,
            offset,
            offset_end,
            flags: Some(buffer.flags),
            ..self
        }
    }

    /// Set the presentation timestamp (nanoseconds)
    pub fn pts(self, pts: Option<u64>) -> (b: Self)
        ensures
            b@ == (MetadataFields { pts, ..self@ }),
    {
        proof {
            use_type_invariant(&self);
        }
        MetadataBuilder { pts, ..self }
    }

    /// Set the decoding timestamp (nanoseconds)
    pub fn dts(self, dts: Option<u64>) -> (b: Self)
        ensures
            b@ == (MetadataFields { dts, ..self@ }),
    {
        proof {
            use_type_invariant(&self);
        }
        MetadataBuilder { dts, ..self }
    }

    /// Set the buffer duration (nanoseconds)
    pub fn duration(self, duration: Option<u64>) -> (b: Self)
        ensures
            b@ == (MetadataFields { duration, ..self@ }),
    {
        proof {
            use_type_invariant(&self);
        }
        MetadataBuilder { duration, ..self }
    }

    /// Set the buffer flags
    pub fn flags(self, flags: BufferFlags) -> (b: Self)
        ensures
            b@ == (MetadataFields { flags: Some(flags), ..self@ }),
    {
        proof {
            use_type_invariant(&self);
        }
        MetadataBuilder { flags: Some(flags), ..self }
    }

    /// Set the compression algorithm the payload was compressed with
    pub fn compression(self, algo: &str) -> (b: Self)
        ensures
            b@ == (MetadataFields { compression: Some(algo@), ..self@ }),
    {
        proof {
            use_type_invariant(&self);
        }
        MetadataBuilder { compression: Some(String::from_str(algo)), ..self }
    }

    /// Set the key expression
    pub fn key_expr(self, key_expr: &str) -> (b: Self)
        ensures
            b@ == (MetadataFields { key_expr: Some(key_expr@), ..self@ }),
    {
        proof {
            use_type_invariant(&self);
        }
        MetadataBuilder { key_expr: Some(String::from_str(key_expr)), ..self }
    }

    /// Add custom user metadata; a key set twice keeps its place and the last value
    pub fn user_metadata(self, key: &str, value: &str) -> (b: Self)
        ensures
            b@ == (MetadataFields { user: upsert(self@.user, key@, value@), ..self@ }),
    {
        proof {
            use_type_invariant(&self);
            lemma_upsert_unique(self@.user, key@, value@);
        }
        let mut s = self;
        let mut entries = Vec::new();
        std::mem::swap(&mut entries, &mut s.user_metadata);
        upsert_entry(&mut entries, String::from_str(key), String::from_str(value));
        MetadataBuilder { user_metadata: entries, ..s }
    }
}

} // verus!

verus! {

/// The text of one `key=value` line.
pub open spec fn kv_line(k: Seq<char>, v: Seq<char>) -> Seq<char> {
    k + seq!['='] + v
}

/// `ls` with a line for an optional text value, escaped.
pub open spec fn text_line(ls: Seq<Seq<char>>, o: Option<Seq<char>>, k: Seq<char>) -> Seq<
    Seq<char>,
> {
    match o {
        Some(v) => ls.push(kv_line(k, escape_newlines(v))),
        None => ls,
    }
}

/// `ls` with a line for an optional number, in decimal.
pub open spec fn number_line(ls: Seq<Seq<char>>, o: Option<u64>, k: Seq<char>) -> Seq<Seq<char>> {
    match o {
        Some(n) => ls.push(kv_line(k, decimal(n as nat))),
        None => ls,
    }
}

/// The version line and the caps line, if any.
pub open spec fn head_caps(m: MetadataFields) -> Seq<Seq<char>> {
    text_line(seq![kv_line(keys::VERSION@, METADATA_VERSION@)], m.caps, keys::CAPS@)
}

/// The lines up to the timestamps and offsets.
pub open spec fn head_numbers(m: MetadataFields) -> Seq<Seq<char>> {
    let l2 = number_line(head_caps(m), m.pts, keys::PTS@);
    let l3 = number_line(l2, m.dts, keys::DTS@);
    let l4 = number_line(l3, m.duration, keys::DURATION@);
    let l5 = number_line(l4, m.offset, keys::OFFSET@);
    number_line(l5, m.offset_end, keys::OFFSET_END@)
}

/// The lines up to the flags (written only when any flag is set).
pub open spec fn head_flags(m: MetadataFields) -> Seq<Seq<char>> {
    match m.flags {
        Some(f) => if flags_text(f).len() > 0 {
            head_numbers(m).push(kv_line(keys::FLAGS@, flags_text(f)))
        } else {
            head_numbers(m)
        },
        None => head_numbers(m),
    }
}

/// The lines up to the compression.
pub open spec fn head_compression(m: MetadataFields) -> Seq<Seq<char>> {
    match m.compression {
        Some(c) => head_flags(m).push(kv_line(keys::COMPRESSION@, c)),
        None => head_flags(m),
    }
}

/// The lines for the fixed keys, in the order they are written.
pub open spec fn head_lines(m: MetadataFields) -> Seq<Seq<char>> {
    text_line(head_compression(m), m.key_expr, keys::KEY_EXPR@)
}

/// The attachment key of a user key: prefixed unless it already is.
pub open spec fn user_key(k: Seq<char>) -> Seq<char> {
    if starts_with(k, keys::USER_PREFIX@) {
        k
    } else {
        keys::USER_PREFIX@ + k
    }
}

/// The lines for the user entries, in order.
pub open spec fn user_lines(u: Seq<(Seq<char>, Seq<char>)>) -> Seq<Seq<char>> {
    Seq::new(u.len(), |i: int| kv_line(user_key(u[i].0), escape_newlines(u[i].1)))
}

/// The attachment text: every line, joined with newlines.
pub open spec fn attachment_text(m: MetadataFields) -> Seq<char> {
    join(head_lines(m) + user_lines(m.user), seq!['\n'])
}

fn kv_chars(k: &str, v: &[char]) -> (r: Vec<char>)
    ensures
        r@ == kv_line(k@, v@),
{
    let mut r = chars_of(k);
    r.push('=');
    append_chars(&mut r, v);
    r
}

fn push_line(ls: &mut Vec<Vec<char>>, line: Vec<char>)
    ensures
        views(final(ls)@) == views(old(ls)@).push(line@),
{
    let ghost before = ls@;
    ls.push(line);
    assert(views(ls@) =~= views(before).push(line@));
}

fn push_text_line(ls: &mut Vec<Vec<char>>, o: &Option<String>, k: &str)
    ensures
        views(final(ls)@) == text_line(views(old(ls)@), opt_view(*o), k@),
{
    if let Some(v) = o {
        let c = chars_of(v.as_str());
        let e = escape_chars(c.as_slice());
        push_line(ls, kv_chars(k, e.as_slice()));
    }
}

fn push_number_line(ls: &mut Vec<Vec<char>>, o: Option<u64>, k: &str)
    ensures
        views(final(ls)@) == number_line(views(old(ls)@), o, k@),
{
    if let Some(n) = o {
        let d = decimal_u64(n);
        push_line(ls, kv_chars(k, d.as_slice()));
    }
}

impl MetadataBuilder {
    /// Build the attachment.
    ///
    /// The attachment is UTF-8 text of `key=value` lines joined by newlines:
    /// the version, then caps, PTS, DTS, duration, offset, offset end (numbers
    /// in decimal nanoseconds or bytes), flags (comma-separated names, only when
    /// any is set), compression, key expression, and the user entries under the
    /// `user.` prefix. Newlines in caps, key expression and user values are
    /// written as a backslash and an `n`.
    pub fn build(self) -> (r: Option<Vec<u8>>)
        ensures
            r matches Some(bytes) && bytes@ == encode_utf8(attachment_text(self@)),
    {
        let mut ls: Vec<Vec<char>> = Vec::new();
        let version = chars_of(METADATA_VERSION);
        let first = kv_chars(keys::VERSION, version.as_slice());
        ls.push(first);
        assert(views(ls@) =~= seq![kv_line(keys::VERSION@, METADATA_VERSION@)]);
        push_text_line(&mut ls, &self.caps, keys::CAPS);
        push_number_line(&mut ls, self.pts, keys::PTS);
        push_number_line(&mut ls, self.dts, keys::DTS);
        push_number_line(&mut ls, self.duration, keys::DURATION);
        push_number_line(&mut ls, self.offset, keys::OFFSET);
        push_number_line(&mut ls, self.offset_end, keys::OFFSET_END);
        if let Some(f) = self.flags {
            let t = flags_to_chars(f);
            if t.len() > 0 {
                push_line(&mut ls, kv_chars(keys::FLAGS, t.as_slice()));
            }
        }
        if let Some(c) = &self.compression {
            let cc = chars_of(c.as_str());
            push_line(&mut ls, kv_chars(keys::COMPRESSION, cc.as_slice()));
        }
        push_text_line(&mut ls, &self.key_expr, keys::KEY_EXPR);
        let ghost head = views(ls@);
        assert(head == head_lines(self@));
        let ghost u = self@.user;
        let mut i: usize = 0;
        while i < self.user_metadata.len()
            invariant
                i <= self.user_metadata.len(),
                u == pairs_view(self.user_metadata@),
                views(ls@) == head + user_lines(u).take(i as int),
            decreases self.user_metadata.len() - i,
        {
            let (k, v) = &self.user_metadata[i];
            let kc = chars_of(k.as_str());
            let full = if starts_with_str(kc.as_slice(), keys::USER_PREFIX) {
                kc
            } else {
                let mut p = chars_of(keys::USER_PREFIX);
                append_chars(&mut p, kc.as_slice());
                p
            };
            let vc = chars_of(v.as_str());
            let e = escape_chars(vc.as_slice());
            let mut line = full;
            line.push('=');
            append_chars(&mut line, e.as_slice());
            assert(u[i as int] == (k@, v@));
            assert(line@ == user_lines(u)[i as int]);
            push_line(&mut ls, line);
            assert(user_lines(u).take(i as int + 1) =~= user_lines(u).take(i as int).push(
                user_lines(u)[i as int],
            ));
            assert(views(ls@) =~= head + user_lines(u).take(i as int + 1));
            i = i + 1;
        }
        assert(user_lines(u).take(i as int) =~= user_lines(u));
        let text = join_chars(&ls, '\n');
        let s = string_of(text.as_slice());
        let bytes = crate::compression::bytes_copy(s.as_str().as_bytes());
        Some(bytes)
    }
}

} // verus!

verus! {

/// What one `key=value` pair does to parsed metadata.
#[verifier::opaque]
pub open spec fn apply_pair(m: MetadataFields, k: Seq<char>, v: Seq<char>) -> MetadataFields {
    if k == keys::VERSION@ {
        MetadataFields { version: Some(v), ..m }
    } else if k == keys::CAPS@ {
        MetadataFields { caps: Some(v), ..m }
    } else if k == keys::PTS@ {
        match parse_u64(v) {
            Some(n) => MetadataFields { pts: Some(n), ..m },
            None => m,
        }
    } else if k == keys::DTS@ {
        match parse_u64(v) {
            Some(n) => MetadataFields { dts: Some(n), ..m },
            None => m,
        }
    } else if k == keys::DURATION@ {
        match parse_u64(v) {
            Some(n) => MetadataFields { duration: Some(n), ..m },
            None => m,
        }
    } else if k == keys::OFFSET@ {
        match parse_u64(v) {
            Some(n) => MetadataFields { offset: Some(n), ..m },
            None => m,
        }
    } else if k == keys::OFFSET_END@ {
        match parse_u64(v) {
            Some(n) => MetadataFields { offset_end: Some(n), ..m },
            None => m,
        }
    } else if k == keys::FLAGS@ {
        MetadataFields { flags: Some(flags_of_text(v)), ..m }
    } else if k == keys::COMPRESSION@ {
        MetadataFields { compression: Some(v), ..m }
    } else if k == keys::KEY_EXPR@ {
        MetadataFields { key_expr: Some(v), ..m }
    } else if starts_with(k, keys::USER_PREFIX@) {
        MetadataFields { user: upsert(m.user, trim_prefixes(k, keys::USER_PREFIX@), v), ..m }
    } else {
        m
    }
}

/// What one line does to parsed metadata: empty lines are skipped, a line
/// without `=` is an error, otherwise the text up to the first `=` is the key
/// and the rest, with escaped newlines read back, the value.
pub open spec fn parse_line(m: MetadataFields, line: Seq<char>) -> Result<MetadataFields, Seq<char>> {
    if line.len() == 0 {
        Ok(m)
    } else {
        let i = first_index(line, '=');
        if i < 0 {
            Err("Invalid metadata line: "@ + line)
        } else {
            Ok(apply_pair(m, line.take(i), unescape_newlines(line.skip(i + 1))))
        }
    }
}

/// Parsed metadata after the given lines, starting from `m`.
pub open spec fn parse_from(m: MetadataFields, ls: Seq<Seq<char>>) -> Result<
    MetadataFields,
    Seq<char>,
>
    decreases ls.len(),
{
    if ls.len() == 0 {
        Ok(m)
    } else {
        match parse_from(m, ls.drop_last()) {
            Ok(m2) => parse_line(m2, ls.last()),
            Err(e) => Err(e),
        }
    }
}

/// What `std::str::from_utf8(bytes)` reports on invalid UTF-8, as text.
pub uninterp spec fn utf8_rejection(bytes: Seq<u8>) -> Seq<char>;

/// What parsing an attachment gives: its lines read in order over empty
/// metadata, or the first error.
pub open spec fn parse_attachment(bytes: Seq<u8>) -> Result<MetadataFields, Seq<char>> {
    if valid_utf8(bytes) {
        parse_from(no_fields(), lines_of(decode_utf8(bytes)))
    } else {
        Err("Invalid UTF-8: "@ + utf8_rejection(bytes))
    }
}

/// Calls `std::str::from_utf8`; claims it accepts exactly valid UTF-8, gives
/// back its characters, and otherwise reports the named rejection text.
#[verifier::external_body]
fn utf8_text(bytes: &[u8]) -> (r: Result<String, String>)
    ensures
        r is Ok <==> valid_utf8(bytes@),
        r matches Ok(s) ==> s@ == decode_utf8(bytes@),
        r matches Err(e) ==> e@ == utf8_rejection(bytes@),
{
    match std::str::from_utf8(bytes) {
        Ok(s) => Ok(s.to_string()),
        Err(e) => Err(e.to_string()),
    }
}

/// Metadata parsed from an attachment
pub struct MetadataParser {
    caps: Option<String>,
    pts: Option<u64>,
    dts: Option<u64>,
    duration: Option<u64>,
    offset: Option<u64>,
    offset_end: Option<u64>,
    flags: Option<BufferFlags>,
    compression: Option<String>,
    key_expr: Option<String>,
    user_metadata: Vec<(String, String)>,
    version: Option<String>,
}

impl View for MetadataParser {
    type V = MetadataFields;

    closed spec fn view(&self) -> MetadataFields {
        MetadataFields {
            caps: opt_view(self.caps),
            pts: self.pts,
            dts: self.dts,
            duration: self.duration,
            offset: self.offset,
            offset_end: self.offset_end,
            flags: self.flags,
            compression: opt_view(self.compression),
            key_expr: opt_view(self.key_expr),
            user: pairs_view(self.user_metadata@),
            version: opt_view(self.version),
        }
    }
}

fn set_number(slot: &mut Option<u64>, v: &[char])
    ensures
        *final(slot) == (match parse_u64(v@) {
            Some(n) => Some(n),
            None => *old(slot),
        }),
{
    if let Some(n) = parse_u64_chars(v) {
        *slot = Some(n);
    }
}

impl MetadataParser {
    fn empty() -> (p: Self)
        ensures
            p@ == no_fields(),
    {
        let user: Vec<(String, String)> = Vec::new();
        let p = MetadataParser {
            caps: None,
            pts: None,
            dts: None,
            duration: None,
            offset: None,
            offset_end: None,
            flags: None,
            compression: None,
            key_expr: None,
            user_metadata: user,
            version: None,
        };
        assert(p@.user =~= Seq::<(Seq<char>, Seq<char>)>::empty());
        p
    }

    fn apply(&mut self, k: &[char], v: &[char])
        ensures
            final(self)@ == apply_pair(old(self)@, k@, v@),
    {
        reveal(apply_pair);
        if eq_str(k, keys::VERSION) {
            self.version = Some(string_of(v));
        } else if eq_str(k, keys::CAPS) {
            self.caps = Some(string_of(v));
        } else if eq_str(k, keys::PTS) {
            set_number(&mut self.pts, v);
        } else if eq_str(k, keys::DTS) {
            set_number(&mut self.dts, v);
        } else if eq_str(k, keys::DURATION) {
            set_number(&mut self.duration, v);
        } else if eq_str(k, keys::OFFSET) {
            set_number(&mut self.offset, v);
        } else if eq_str(k, keys::OFFSET_END) {
            set_number(&mut self.offset_end, v);
        } else if eq_str(k, keys::FLAGS) {
            self.flags = Some(chars_to_flags(v));
        } else if eq_str(k, keys::COMPRESSION) {
            self.compression = Some(string_of(v));
        } else if eq_str(k, keys::KEY_EXPR) {
            self.key_expr = Some(string_of(v));
        } else if starts_with_str(k, keys::USER_PREFIX) {
            let uk = trim_prefixes_chars(k, keys::USER_PREFIX);
            upsert_entry(&mut self.user_metadata, string_of(uk.as_slice()), string_of(v));
        }
    }

    /// Parse metadata from attachment bytes.
    ///
    /// The bytes must be UTF-8; each line is `key=value` (empty lines are
    /// skipped) and keys this version does not know are ignored. A number that
    /// does not parse leaves its field as it was.
    ///
    /// Caps are kept as their text and are not validated here: whether
    /// GStreamer can parse them is decided outside this library, and
    /// `check_caps` refuses the attachment when it cannot.
    pub fn parse(zbytes: &[u8]) -> (r: Result<Self, String>)
        ensures
            match (r, parse_attachment(zbytes@)) {
                (Ok(p), Ok(m)) => p@ == m,
                (Err(e), Err(m)) => e@ == m,
                _ => false,
            },
    {
        let text = match utf8_text(zbytes) {
            Ok(t) => t,
            Err(e) => {
                let mut m = String::from_str("Invalid UTF-8: ");
                m.append(e.as_str());
                return Err(m);
            },
        };
        let chars = chars_of(text.as_str());
        let ls = lines_chars(chars.as_slice());
        let mut parser = MetadataParser::empty();
        let mut j: usize = 0;
        while j < ls.len()
            invariant
                j <= ls.len(),
                views(ls@) == lines_of(decode_utf8(zbytes@)),
                valid_utf8(zbytes@),
                parse_from(no_fields(), views(ls@).take(j as int)) == Ok::<
                    MetadataFields,
                    Seq<char>,
                >(parser@),
            decreases ls.len() - j,
        {
            let line = &ls[j];
            let ghost t = views(ls@).take(j as int + 1);
            assert(t.drop_last() =~= views(ls@).take(j as int));
            assert(t.last() == line@);
            if line.len() > 0 {
                match find_char(line.as_slice(), '=') {
                    None => {
                        let mut m = String::from_str("Invalid metadata line: ");
                        let l = string_of(line.as_slice());
                        m.append(l.as_str());
                        proof {
                            lemma_parse_from_error(no_fields(), views(ls@), j as int);
                        }
                        return Err(m);
                    },
                    Some(i) => {
                        proof {
                            lemma_first_index(line@, '=');
                        }
                        let key = &line.as_slice()[0..i];
                        let raw = &line.as_slice()[i + 1..line.len()];
                        assert(key@ =~= line@.take(i as int));
                        assert(raw@ =~= line@.skip(i + 1));
                        let value = unescape_chars(raw);
                        parser.apply(key, value.as_slice());
                    },
                }
            }
            j = j + 1;
        }
        assert(views(ls@).take(ls.len() as int) =~= views(ls@));
        Ok(parser)
    }

    /// Refuse parsed metadata whose caps GStreamer could not parse
    /// (`caps_parse_ok` is that verdict on the caps text); metadata without
    /// caps, or with caps that parse, is kept as it is.
    pub fn check_caps(self, caps_parse_ok: bool) -> (r: Result<Self, String>)
        ensures
            match self@.caps {
                Some(c) => if caps_parse_ok {
                    r matches Ok(p) && p@ == self@
                } else {
                    r matches Err(e) && e@ == "Failed to parse caps '"@ + c + "'"@
                },
                None => r matches Ok(p) && p@ == self@,
            },
    {
        if caps_parse_ok {
            return Ok(self);
        }
        let refused = match &self.caps {
            Some(c) => {
                let mut e = String::from_str("Failed to parse caps '");
                e.append(c.as_str());
                e.append("'");
                Some(e)
            },
            None => None,
        };
        match refused {
            Some(e) => Err(e),
            None => Ok(self),
        }
    }

    /// Get the parsed caps text, if any
    pub fn caps(&self) -> (r: Option<&str>)
        ensures
            match r {
                Some(s) => self@.caps == Some(s@),
                None => self@.caps is None,
            },
    {
        match &self.caps {
            Some(s) => Some(s.as_str()),
            None => None,
        }
    }

    /// Get the presentation timestamp (nanoseconds)
    pub fn pts(&self) -> (r: Option<u64>)
        ensures
            r == self@.pts,
    {
        self.pts
    }

    /// Get the decoding timestamp (nanoseconds)
    pub fn dts(&self) -> (r: Option<u64>)
        ensures
            r == self@.dts,
    {
        self.dts
    }

    /// Get the buffer duration (nanoseconds)
    pub fn duration(&self) -> (r: Option<u64>)
        ensures
            r == self@.duration,
    {
        self.duration
    }

    /// Get the buffer offset
    pub fn offset(&self) -> (r: Option<u64>)
        ensures
            r == self@.offset,
    {
        self.offset
    }

    /// Get the buffer offset end
    pub fn offset_end(&self) -> (r: Option<u64>)
        ensures
            r == self@.offset_end,
    {
        self.offset_end
    }

    /// Get the buffer flags
    pub fn flags(&self) -> (r: Option<BufferFlags>)
        ensures
            r == self@.flags,
    {
        self.flags
    }

    /// Get the compression algorithm name, if any
    pub fn compression(&self) -> (r: Option<&str>)
        ensures
            match r {
                Some(s) => self@.compression == Some(s@),
                None => self@.compression is None,
            },
    {
        match &self.compression {
            Some(s) => Some(s.as_str()),
            None => None,
        }
    }

    /// Get the key expression
    pub fn key_expr(&self) -> (r: Option<&str>)
        ensures
            match r {
                Some(s) => self@.key_expr == Some(s@),
                None => self@.key_expr is None,
            },
    {
        match &self.key_expr {
            Some(s) => Some(s.as_str()),
            None => None,
        }
    }

    /// Get the metadata format version
    pub fn version(&self) -> (r: Option<&str>)
        ensures
            match r {
                Some(s) => self@.version == Some(s@),
                None => self@.version is None,
            },
    {
        match &self.version {
            Some(s) => Some(s.as_str()),
            None => None,
        }
    }

    /// Get all user metadata, in the order the keys first appeared
    pub fn user_metadata(&self) -> (r: &Vec<(String, String)>)
        ensures
            pairs_view(r@) == self@.user,
    {
        &self.user_metadata
    }

    /// Get a specific user metadata value
    pub fn get_user_metadata(&self, key: &str) -> (r: Option<&str>)
        ensures
            match r {
                Some(s) => {
                    let i = key_position(self@.user, key@);
                    i >= 0 && self@.user[i].1 == s@
                },
                None => key_position(self@.user, key@) < 0,
            },
    {
        let k = String::from_str(key);
        proof {
            lemma_key_position(self@.user, key@);
        }
        match find_key(&self.user_metadata, &k) {
            Some(i) => {
                assert(self@.user[i as int] == (self.user_metadata@[i as int].0@,
                    self.user_metadata@[i as int].1@));
                Some(self.user_metadata[i].1.as_str())
            },
            None => None,
        }
    }

    /// The buffer fields to set from the parsed metadata: each present field
    /// replaces the buffer's own, the others are kept.
    pub fn apply_to_buffer(&self, buffer: &mut BufferTiming)
        ensures
            final(buffer).pts == (if self@.pts is Some {
                self@.pts
            } else {
                old(buffer).pts
            }),
            final(buffer).dts == (if self@.dts is Some {
                self@.dts
            } else {
                old(buffer).dts
            }),
            final(buffer).duration == (if self@.duration is Some {
                self@.duration
            } else {
                old(buffer).duration
            }),
            final(buffer).offset == (match self@.offset {
                Some(o) => o,
                None => old(buffer).offset,
            }),
            final(buffer).offset_end == (match self@.offset_end {
                Some(o) => o,
                None => old(buffer).offset_end,
            }),
            final(buffer).flags == (match self@.flags {
                Some(f) => f,
                None => old(buffer).flags,
            }),
    {
        if self.pts.is_some() {
            buffer.pts = self.pts;
        }
        if self.dts.is_some() {
            buffer.dts = self.dts;
        }
        if self.duration.is_some() {
            buffer.duration = self.duration;
        }
        if let Some(o) = self.offset {
            buffer.offset = o;
        }
        if let Some(o) = self.offset_end {
            buffer.offset_end = o;
        }
        if let Some(f) = self.flags {
            buffer.flags = f;
        }
    }
}

/// Parsing stops at a line that has no `=`.
proof fn lemma_parse_from_error(m: MetadataFields, ls: Seq<Seq<char>>, j: int)
    requires
        0 <= j < ls.len(),
        parse_from(m, ls.take(j)) is Ok,
        ls[j].len() > 0,
        first_index(ls[j], '=') < 0,
    ensures
        parse_from(m, ls) == Err::<MetadataFields, Seq<char>>("Invalid metadata line: "@ + ls[j]),
    decreases ls.len() - j,
{
    let t = ls.take(j + 1);
    assert(t.drop_last() =~= ls.take(j));
    assert(t.last() == ls[j]);
    lemma_parse_from_error_rest(m, ls, j + 1, "Invalid metadata line: "@ + ls[j]);
}

proof fn lemma_parse_from_error_rest(m: MetadataFields, ls: Seq<Seq<char>>, k: int, e: Seq<char>)
    requires
        0 <= k <= ls.len(),
        parse_from(m, ls.take(k)) == Err::<MetadataFields, Seq<char>>(e),
    ensures
        parse_from(m, ls) == Err::<MetadataFields, Seq<char>>(e),
    decreases ls.len() - k,
{
    if k < ls.len() {
        let t = ls.take(k + 1);
        assert(t.drop_last() =~= ls.take(k));
        lemma_parse_from_error_rest(m, ls, k + 1, e);
    } else {
        assert(ls.take(k) =~= ls);
    }
}

} // verus!

verus! {

/// A value that survives the round trip: no backslash-`n` pair (which would
/// read back as a newline) and no carriage return at its end (which line
/// splitting drops).
pub open spec fn value_safe(v: Seq<char>) -> bool {
    !has_escape_pair(v) && !(v.len() > 0 && v.last() == '\r')
}

/// A user key that survives the round trip: no `=` (the key ends at the first
/// one), no newline, and not already under the `user.` prefix.
pub open spec fn user_key_safe(k: Seq<char>) -> bool {
    !k.contains('=') && !k.contains('\n') && !starts_with(k, keys::USER_PREFIX@)
}

/// Metadata whose every text survives the round trip with no line ending in
/// a carriage return.
pub open spec fn texts_survive(m: MetadataFields) -> bool {
    &&& (m.caps matches Some(c) ==> value_safe(c))
    &&& (m.key_expr matches Some(k) ==> value_safe(k))
    &&& (m.compression matches Some(c) ==> value_safe(c) && !c.contains('\n'))
    &&& keys_unique(m.user)
    &&& forall|i: int|
        0 <= i < m.user.len() ==> user_key_safe(#[trigger] m.user[i].0) && value_safe(m.user[i].1)
}

/// What an attachment built from `m` reads back as: the current version, the
/// flags only when any is set, and everything else as it was.
pub open spec fn read_back(m: MetadataFields) -> MetadataFields {
    MetadataFields {
        version: Some(METADATA_VERSION@),
        flags: match m.flags {
            Some(f) => if flags_text(f).len() > 0 {
                Some(f)
            } else {
                None
            },
            None => None,
        },
        ..m
    }
}

/// The fixed keys, as characters.
proof fn lemma_key_texts()
    ensures
        keys::VERSION@ =~= seq!['g', 's', 't', '.', 'v', 'e', 'r', 's', 'i', 'o', 'n'],
        keys::CAPS@ =~= seq!['g', 's', 't', '.', 'c', 'a', 'p', 's'],
        keys::PTS@ =~= seq!['g', 's', 't', '.', 'p', 't', 's'],
        keys::DTS@ =~= seq!['g', 's', 't', '.', 'd', 't', 's'],
        keys::DURATION@ =~= seq!['g', 's', 't', '.', 'd', 'u', 'r', 'a', 't', 'i', 'o', 'n'],
        keys::OFFSET@ =~= seq!['g', 's', 't', '.', 'o', 'f', 'f', 's', 'e', 't'],
        keys::OFFSET_END@ =~= seq![
            'g', 's', 't', '.', 'o', 'f', 'f', 's', 'e', 't', '-', 'e', 'n', 'd',
        ],
        keys::FLAGS@ =~= seq!['g', 's', 't', '.', 'f', 'l', 'a', 'g', 's'],
        keys::COMPRESSION@ =~= seq![
            'g', 's', 't', '.', 'c', 'o', 'm', 'p', 'r', 'e', 's', 's', 'i', 'o', 'n',
        ],
        keys::KEY_EXPR@ =~= seq![
            'z', 'e', 'n', 'o', 'h', '.', 'k', 'e', 'y', '-', 'e', 'x', 'p', 'r',
        ],
        keys::USER_PREFIX@ =~= seq!['u', 's', 'e', 'r', '.'],
        METADATA_VERSION@ =~= seq!['1', '.', '1'],
{
    reveal_strlit("gst.version");
    reveal_strlit("gst.caps");
    reveal_strlit("gst.pts");
    reveal_strlit("gst.dts");
    reveal_strlit("gst.duration");
    reveal_strlit("gst.offset");
    reveal_strlit("gst.offset-end");
    reveal_strlit("gst.flags");
    reveal_strlit("gst.compression");
    reveal_strlit("zenoh.key-expr");
    reveal_strlit("user.");
    reveal_strlit("1.1");
}

/// What a pair with each fixed key does.
#[verifier::spinoff_prover]
proof fn lemma_apply_fixed(m: MetadataFields, v: Seq<char>)
    ensures
        apply_pair(m, keys::VERSION@, v) == (MetadataFields { version: Some(v), ..m }),
        apply_pair(m, keys::CAPS@, v) == (MetadataFields { caps: Some(v), ..m }),
        apply_pair(m, keys::PTS@, v) == (match parse_u64(v) {
            Some(n) => MetadataFields { pts: Some(n), ..m },
            None => m,
        }),
        apply_pair(m, keys::DTS@, v) == (match parse_u64(v) {
            Some(n) => MetadataFields { dts: Some(n), ..m },
            None => m,
        }),
        apply_pair(m, keys::DURATION@, v) == (match parse_u64(v) {
            Some(n) => MetadataFields { duration: Some(n), ..m },
            None => m,
        }),
        apply_pair(m, keys::OFFSET@, v) == (match parse_u64(v) {
            Some(n) => MetadataFields { offset: Some(n), ..m },
            None => m,
        }),
        apply_pair(m, keys::OFFSET_END@, v) == (match parse_u64(v) {
            Some(n) => MetadataFields { offset_end: Some(n), ..m },
            None => m,
        }),
        apply_pair(m, keys::FLAGS@, v) == (MetadataFields { flags: Some(flags_of_text(v)), ..m }),
        apply_pair(m, keys::COMPRESSION@, v) == (MetadataFields { compression: Some(v), ..m }),
        apply_pair(m, keys::KEY_EXPR@, v) == (MetadataFields { key_expr: Some(v), ..m }),
{
    reveal(apply_pair);
    lemma_key_texts();
    assert(keys::PTS@[4] != keys::DTS@[4]);
    assert(keys::OFFSET_END@[0] != keys::KEY_EXPR@[0]);
    assert(!starts_with(keys::KEY_EXPR@, keys::USER_PREFIX@)) by {
        assert(keys::KEY_EXPR@.take(5)[0] != keys::USER_PREFIX@[0]);
    }
}

/// What a pair with a `user.` key does.
proof fn lemma_apply_user(m: MetadataFields, k: Seq<char>, v: Seq<char>)
    requires
        starts_with(k, keys::USER_PREFIX@),
    ensures
        apply_pair(m, k, v) == (MetadataFields {
            user: upsert(m.user, trim_prefixes(k, keys::USER_PREFIX@), v),
            ..m
        }),
{
    reveal(apply_pair);
    lemma_key_texts();
    assert(k[0] == 'u') by {
        assert(k.take(5)[0] == k[0]);
    }
    assert(k != keys::VERSION@ && k != keys::CAPS@ && k != keys::PTS@ && k != keys::DTS@
        && k != keys::DURATION@ && k != keys::OFFSET@ && k != keys::OFFSET_END@ && k
        != keys::FLAGS@ && k != keys::COMPRESSION@ && k != keys::KEY_EXPR@);
}

/// A `key=value` line is read as that pair when the key has no `=`.
proof fn lemma_parse_kv(m: MetadataFields, k: Seq<char>, v: Seq<char>)
    requires
        !k.contains('='),
    ensures
        parse_line(m, kv_line(k, v)) == Ok::<MetadataFields, Seq<char>>(
            apply_pair(m, k, unescape_newlines(v)),
        ),
{
    let l = kv_line(k, v);
    lemma_first_index_after(k, v, '=');
    assert(l.take(k.len() as int) =~= k);
    assert(l.skip(k.len() as int + 1) =~= v);
}

/// Reading lines that follow others continues from where those left off.
proof fn lemma_parse_from_concat(m: MetadataFields, a: Seq<Seq<char>>, b: Seq<Seq<char>>)
    requires
        parse_from(m, a) is Ok,
    ensures
        parse_from(m, a + b) == parse_from(parse_from(m, a)->Ok_0, b),
    decreases b.len(),
{
    if b.len() == 0 {
        assert(a + b =~= a);
    } else {
        lemma_parse_from_concat(m, a, b.drop_last());
        assert((a + b).drop_last() =~= a + b.drop_last());
        assert((a + b).last() == b.last());
    }
}

/// Reading one more line.
proof fn lemma_parse_from_push(m: MetadataFields, a: Seq<Seq<char>>, l: Seq<char>)
    requires
        parse_from(m, a) is Ok,
    ensures
        parse_from(m, a.push(l)) == parse_line(parse_from(m, a)->Ok_0, l),
{
    assert(a.push(l).drop_last() =~= a);
}

proof fn lemma_key_texts_no_eq()
    ensures
        !keys::VERSION@.contains('='),
        !keys::CAPS@.contains('='),
        !keys::PTS@.contains('='),
        !keys::DTS@.contains('='),
        !keys::DURATION@.contains('='),
        !keys::OFFSET@.contains('='),
        !keys::OFFSET_END@.contains('='),
        !keys::FLAGS@.contains('='),
        !keys::COMPRESSION@.contains('='),
        !keys::KEY_EXPR@.contains('='),
        !keys::USER_PREFIX@.contains('='),
        !keys::VERSION@.contains('\n'),
        !keys::CAPS@.contains('\n'),
        !keys::PTS@.contains('\n'),
        !keys::DTS@.contains('\n'),
        !keys::DURATION@.contains('\n'),
        !keys::OFFSET@.contains('\n'),
        !keys::OFFSET_END@.contains('\n'),
        !keys::FLAGS@.contains('\n'),
        !keys::COMPRESSION@.contains('\n'),
        !keys::KEY_EXPR@.contains('\n'),
        !keys::USER_PREFIX@.contains('\n'),
        !has_escape_pair(METADATA_VERSION@),
        !METADATA_VERSION@.contains('\n'),
{
    lemma_key_texts();
}

} // verus!

verus! {

/// A line that line splitting reads back as itself.
pub open spec fn line_ok(l: Seq<char>) -> bool {
    !l.contains('\n') && strip_cr(l) == l && l.len() > 0
}

proof fn lemma_join_lacks(parts: Seq<Seq<char>>, sep: char, c: char)
    requires
        sep != c,
        forall|i: int| 0 <= i < parts.len() ==> !(#[trigger] parts[i]).contains(c),
    ensures
        !join(parts, seq![sep]).contains(c),
    decreases parts.len(),
{
    if parts.len() > 1 {
        let init = parts.drop_last();
        assert forall|i: int| 0 <= i < init.len() implies !(#[trigger] init[i]).contains(c) by {
            assert(init[i] == parts[i]);
        }
        lemma_join_lacks(init, sep, c);
        let j = join(parts, seq![sep]);
        let a = join(init, seq![sep]);
        let l = parts.last();
        assert(!l.contains(c)) by {
            assert(parts[parts.len() - 1] == l);
        }
        assert(j =~= a + seq![sep] + l);
        if j.contains(c) {
            let k = choose|k: int| 0 <= k < j.len() && j[k] == c;
            if k < a.len() {
                assert(a[k] == c);
            } else if k > a.len() {
                assert(l[k - a.len() - 1] == c);
            }
        }
    } else if parts.len() == 1 {
        assert(!parts[0].contains(c));
    }
}

proof fn lemma_flags_text_quiet(f: BufferFlags)
    ensures
        !flags_text(f).contains('\n'),
        !flags_text(f).contains('\r'),
        !has_escape_pair(flags_text(f)),
        !flags_text(f).contains('\\'),
{
    lemma_flag_names_plain(f);
    let names = flag_names(f);
    assert forall|i: int| 0 <= i < names.len() implies !(#[trigger] names[i]).contains('\n') by {
        assert(plain_name(names[i]));
    }
    assert forall|i: int| 0 <= i < names.len() implies !(#[trigger] names[i]).contains('\r') by {
        assert(plain_name(names[i]));
    }
    lemma_join_lacks(names, ',', '\n');
    lemma_join_lacks(names, ',', '\r');
    lemma_flag_names_backslash_free(f);
    assert forall|i: int| 0 <= i < names.len() implies !(#[trigger] names[i]).contains('\\') by {
    }
    lemma_join_lacks(names, ',', '\\');
    let t = flags_text(f);
    if has_escape_pair(t) {
        let i = choose|i: int| 0 <= i < t.len() - 1 && t[i] == '\\' && #[trigger] t[i + 1] == 'n';
        assert(t.contains('\\'));
    }
}

proof fn lemma_flag_names_backslash_free(f: BufferFlags)
    ensures
        forall|i: int| 0 <= i < flag_names(f).len() ==> !(#[trigger] flag_names(f)[i]).contains('\\'),
{
    lemma_names_no_backslash();
    let p0 = Seq::<Seq<char>>::empty();
    let p1 = push_if(p0, f.live, "live"@);
    let p2 = push_if(p1, f.discont, "discont"@);
    let p3 = push_if(p2, f.delta_unit, "delta"@);
    let p4 = push_if(p3, f.header, "header"@);
    let p5 = push_if(p4, f.gap, "gap"@);
    let p6 = push_if(p5, f.droppable, "droppable"@);
    let p7 = push_if(p6, f.marker, "marker"@);
    let p8 = push_if(p7, f.corrupted, "corrupted"@);
    lemma_push_if_lacks(p0, f.live, "live"@);
    lemma_push_if_lacks(p1, f.discont, "discont"@);
    lemma_push_if_lacks(p2, f.delta_unit, "delta"@);
    lemma_push_if_lacks(p3, f.header, "header"@);
    lemma_push_if_lacks(p4, f.gap, "gap"@);
    lemma_push_if_lacks(p5, f.droppable, "droppable"@);
    lemma_push_if_lacks(p6, f.marker, "marker"@);
    lemma_push_if_lacks(p7, f.corrupted, "corrupted"@);
    lemma_push_if_lacks(p8, f.non_droppable, "non-droppable"@);
}

proof fn lemma_names_no_backslash()
    ensures
        !"live"@.contains('\\'),
        !"discont"@.contains('\\'),
        !"delta"@.contains('\\'),
        !"header"@.contains('\\'),
        !"gap"@.contains('\\'),
        !"droppable"@.contains('\\'),
        !"marker"@.contains('\\'),
        !"corrupted"@.contains('\\'),
        !"non-droppable"@.contains('\\'),
{
    reveal_strlit("live");
    reveal_strlit("discont");
    reveal_strlit("delta");
    reveal_strlit("header");
    reveal_strlit("gap");
    reveal_strlit("droppable");
    reveal_strlit("marker");
    reveal_strlit("corrupted");
    reveal_strlit("non-droppable");
}

proof fn lemma_push_if_lacks(parts: Seq<Seq<char>>, on: bool, name: Seq<char>)
    requires
        forall|i: int| 0 <= i < parts.len() ==> !(#[trigger] parts[i]).contains('\\'),
        !name.contains('\\'),
    ensures
        forall|i: int|
            0 <= i < push_if(parts, on, name).len() ==> !(#[trigger] push_if(
                parts,
                on,
                name,
            )[i]).contains('\\'),
{
    if on {
        assert forall|i: int| 0 <= i < parts.push(name).len() implies !(#[trigger] parts.push(
            name,
        )[i]).contains('\\') by {
            if i < parts.len() {
                assert(parts.push(name)[i] == parts[i]);
            }
        }
    }
}

proof fn lemma_kv_line_ok(k: Seq<char>, v: Seq<char>)
    requires
        !k.contains('\n'),
        !v.contains('\n'),
        !(v.len() > 0 && v.last() == '\r'),
    ensures
        line_ok(kv_line(k, v)),
{
    let l = kv_line(k, v);
    if l.contains('\n') {
        let i = choose|i: int| 0 <= i < l.len() && l[i] == '\n';
        if i < k.len() {
            assert(k[i] == '\n');
        } else if i > k.len() {
            assert(v[i - k.len() - 1] == '\n');
        }
    }
    if v.len() > 0 {
        assert(l.last() == v.last());
    } else {
        assert(l.last() == '=');
    }
}

proof fn lemma_escaped_value(v: Seq<char>)
    requires
        value_safe(v),
    ensures
        !escape_newlines(v).contains('\n'),
        !(escape_newlines(v).len() > 0 && escape_newlines(v).last() == '\r'),
        unescape_newlines(escape_newlines(v)) == v,
{
    lemma_escape_no_newline(v);
    lemma_unescape_escape(v);
    if v.len() > 0 {
        if v.last() != '\n' {
            lemma_escape_last(v);
        } else {
            assert(escape_newlines(v) == escape_newlines(v.drop_last()) + seq!['\\', 'n']);
        }
    }
}

proof fn lemma_decimal_value(n: u64)
    ensures
        !decimal(n as nat).contains('\n'),
        !(decimal(n as nat).len() > 0 && decimal(n as nat).last() == '\r'),
        unescape_newlines(decimal(n as nat)) == decimal(n as nat),
        parse_u64(decimal(n as nat)) == Some(n),
{
    lemma_decimal_digits(n as nat);
    lemma_parse_decimal(n);
    let d = decimal(n as nat);
    assert(is_digit(d[d.len() - 1]));
    if d.contains('\n') {
        let i = choose|i: int| 0 <= i < d.len() && d[i] == '\n';
        assert(is_digit(d[i]));
    }
    assert(!has_escape_pair(d)) by {
        if has_escape_pair(d) {
            let i = choose|i: int| 0 <= i < d.len() - 1 && d[i] == '\\' && #[trigger] d[i + 1] == 'n';
            assert(is_digit(d[i]));
        }
    }
    lemma_unescape_plain(d);
}

} // verus!

verus! {

/// Whether every line is one that line splitting reads back as itself.
pub open spec fn all_lines_ok(ls: Seq<Seq<char>>) -> bool {
    forall|i: int| 0 <= i < ls.len() ==> line_ok(#[trigger] ls[i])
}

proof fn lemma_all_ok_push(ls: Seq<Seq<char>>, l: Seq<char>)
    requires
        all_lines_ok(ls),
        line_ok(l),
    ensures
        all_lines_ok(ls.push(l)),
{
    assert forall|i: int| 0 <= i < ls.push(l).len() implies line_ok(#[trigger] ls.push(l)[i]) by {
        if i < ls.len() {
            assert(ls.push(l)[i] == ls[i]);
        }
    }
}

/// Reading a `key=value` line after others.
proof fn lemma_parse_step(s: MetadataFields, ls: Seq<Seq<char>>, k: Seq<char>, v: Seq<char>)
    requires
        parse_from(s, ls) is Ok,
        !k.contains('='),
    ensures
        parse_from(s, ls.push(kv_line(k, v))) == Ok::<MetadataFields, Seq<char>>(
            apply_pair(parse_from(s, ls)->Ok_0, k, unescape_newlines(v)),
        ),
{
    lemma_parse_from_push(s, ls, kv_line(k, v));
    lemma_parse_kv(parse_from(s, ls)->Ok_0, k, v);
}

/// An escaped optional text line reads back as the text.
proof fn lemma_text_step(
    s: MetadataFields,
    ls: Seq<Seq<char>>,
    o: Option<Seq<char>>,
    k: Seq<char>,
)
    requires
        parse_from(s, ls) is Ok,
        all_lines_ok(ls),
        !k.contains('='),
        !k.contains('\n'),
        o matches Some(v) ==> value_safe(v),
    ensures
        all_lines_ok(text_line(ls, o, k)),
        parse_from(s, text_line(ls, o, k)) == (match o {
            Some(v) => Ok::<MetadataFields, Seq<char>>(apply_pair(parse_from(s, ls)->Ok_0, k, v)),
            None => parse_from(s, ls),
        }),
{
    if let Some(v) = o {
        lemma_escaped_value(v);
        lemma_kv_line_ok(k, escape_newlines(v));
        lemma_all_ok_push(ls, kv_line(k, escape_newlines(v)));
        lemma_parse_step(s, ls, k, escape_newlines(v));
    }
}

/// A decimal optional number line reads back as the number.
proof fn lemma_number_step(s: MetadataFields, ls: Seq<Seq<char>>, o: Option<u64>, k: Seq<char>)
    requires
        parse_from(s, ls) is Ok,
        all_lines_ok(ls),
        !k.contains('='),
        !k.contains('\n'),
    ensures
        all_lines_ok(number_line(ls, o, k)),
        parse_from(s, number_line(ls, o, k)) == (match o {
            Some(n) => Ok::<MetadataFields, Seq<char>>(
                apply_pair(parse_from(s, ls)->Ok_0, k, decimal(n as nat)),
            ),
            None => parse_from(s, ls),
        }),
        o matches Some(n) ==> parse_u64(decimal(n as nat)) == Some(n),
{
    if let Some(n) = o {
        lemma_decimal_value(n);
        lemma_kv_line_ok(k, decimal(n as nat));
        lemma_all_ok_push(ls, kv_line(k, decimal(n as nat)));
        lemma_parse_step(s, ls, k, decimal(n as nat));
    }
}

/// The number lines of the fixed keys read back as their numbers.
#[verifier::spinoff_prover]
proof fn lemma_parse_numbers(s: MetadataFields, ls: Seq<Seq<char>>, x: MetadataFields, m: MetadataFields)
    requires
        parse_from(s, ls) == Ok::<MetadataFields, Seq<char>>(x),
        all_lines_ok(ls),
        x.pts is None && x.dts is None && x.duration is None,
        x.offset is None && x.offset_end is None,
    ensures
        ({
            let l = number_line(
                number_line(
                    number_line(
                        number_line(number_line(ls, m.pts, keys::PTS@), m.dts, keys::DTS@),
                        m.duration,
                        keys::DURATION@,
                    ),
                    m.offset,
                    keys::OFFSET@,
                ),
                m.offset_end,
                keys::OFFSET_END@,
            );
            &&& all_lines_ok(l)
            &&& parse_from(s, l) == Ok::<MetadataFields, Seq<char>>(
                MetadataFields {
                    pts: m.pts,
                    dts: m.dts,
                    duration: m.duration,
                    offset: m.offset,
                    offset_end: m.offset_end,
                    ..x
                },
            )
        }),
{
    lemma_key_texts_no_eq();
    let l2 = number_line(ls, m.pts, keys::PTS@);
    lemma_number_step(s, ls, m.pts, keys::PTS@);
    lemma_apply_fixed(x, if let Some(n) = m.pts { decimal(n as nat) } else { Seq::empty() });
    let x2 = MetadataFields { pts: m.pts, ..x };
    assert(parse_from(s, l2) == Ok::<MetadataFields, Seq<char>>(x2));

    let l3 = number_line(l2, m.dts, keys::DTS@);
    lemma_number_step(s, l2, m.dts, keys::DTS@);
    lemma_apply_fixed(x2, if let Some(n) = m.dts { decimal(n as nat) } else { Seq::empty() });
    let x3 = MetadataFields { dts: m.dts, ..x2 };
    assert(parse_from(s, l3) == Ok::<MetadataFields, Seq<char>>(x3));

    let l4 = number_line(l3, m.duration, keys::DURATION@);
    lemma_number_step(s, l3, m.duration, keys::DURATION@);
    lemma_apply_fixed(
        x3,
        if let Some(n) = m.duration { decimal(n as nat) } else { Seq::empty() },
    );
    let x4 = MetadataFields { duration: m.duration, ..x3 };
    assert(parse_from(s, l4) == Ok::<MetadataFields, Seq<char>>(x4));

    let l5 = number_line(l4, m.offset, keys::OFFSET@);
    lemma_number_step(s, l4, m.offset, keys::OFFSET@);
    lemma_apply_fixed(x4, if let Some(n) = m.offset { decimal(n as nat) } else { Seq::empty() });
    let x5 = MetadataFields { offset: m.offset, ..x4 };
    assert(parse_from(s, l5) == Ok::<MetadataFields, Seq<char>>(x5));

    let l6 = number_line(l5, m.offset_end, keys::OFFSET_END@);
    lemma_number_step(s, l5, m.offset_end, keys::OFFSET_END@);
    lemma_apply_fixed(
        x5,
        if let Some(n) = m.offset_end { decimal(n as nat) } else { Seq::empty() },
    );
}

/// The flags, compression and key expression lines read back as those fields.
#[verifier::spinoff_prover]
proof fn lemma_parse_tail(s: MetadataFields, ls: Seq<Seq<char>>, x: MetadataFields, m: MetadataFields)
    requires
        parse_from(s, ls) == Ok::<MetadataFields, Seq<char>>(x),
        all_lines_ok(ls),
        x.flags is None && x.compression is None && x.key_expr is None,
        texts_survive(m),
    ensures
        ({
            let l7 = match m.flags {
                Some(f) => if flags_text(f).len() > 0 {
                    ls.push(kv_line(keys::FLAGS@, flags_text(f)))
                } else {
                    ls
                },
                None => ls,
            };
            let l8 = match m.compression {
                Some(c) => l7.push(kv_line(keys::COMPRESSION@, c)),
                None => l7,
            };
            let l9 = text_line(l8, m.key_expr, keys::KEY_EXPR@);
            &&& all_lines_ok(l9)
            &&& parse_from(s, l9) == Ok::<MetadataFields, Seq<char>>(
                MetadataFields {
                    flags: read_back(m).flags,
                    compression: m.compression,
                    key_expr: m.key_expr,
                    ..x
                },
            )
        }),
{
    lemma_key_texts_no_eq();
    let x7 = MetadataFields { flags: read_back(m).flags, ..x };
    let l7 = match m.flags {
        Some(f) => if flags_text(f).len() > 0 {
            ls.push(kv_line(keys::FLAGS@, flags_text(f)))
        } else {
            ls
        },
        None => ls,
    };
    if let Some(f) = m.flags {
        if flags_text(f).len() > 0 {
            lemma_flags_text_quiet(f);
            lemma_unescape_plain(flags_text(f));
            lemma_flags_roundtrip(f);
            lemma_kv_line_ok(keys::FLAGS@, flags_text(f));
            lemma_all_ok_push(ls, kv_line(keys::FLAGS@, flags_text(f)));
            lemma_parse_step(s, ls, keys::FLAGS@, flags_text(f));
            lemma_apply_fixed(x, flags_text(f));
        }
    }
    assert(parse_from(s, l7) == Ok::<MetadataFields, Seq<char>>(x7));

    let x8 = MetadataFields { compression: m.compression, ..x7 };
    let l8 = match m.compression {
        Some(c) => l7.push(kv_line(keys::COMPRESSION@, c)),
        None => l7,
    };
    if let Some(c) = m.compression {
        lemma_unescape_plain(c);
        lemma_kv_line_ok(keys::COMPRESSION@, c);
        lemma_all_ok_push(l7, kv_line(keys::COMPRESSION@, c));
        lemma_parse_step(s, l7, keys::COMPRESSION@, c);
        lemma_apply_fixed(x7, c);
    }
    assert(parse_from(s, l8) == Ok::<MetadataFields, Seq<char>>(x8));

    lemma_text_step(s, l8, m.key_expr, keys::KEY_EXPR@);
    lemma_apply_fixed(x8, if let Some(v) = m.key_expr { v } else { Seq::empty() });
}

/// The fixed-key lines read back as the fixed fields of `read_back(m)`.
#[verifier::spinoff_prover]
proof fn lemma_parse_head(m: MetadataFields)
    requires
        texts_survive(m),
    ensures
        all_lines_ok(head_lines(m)),
        head_lines(m).len() >= 1,
        parse_from(no_fields(), head_lines(m)) == Ok::<MetadataFields, Seq<char>>(
            MetadataFields { user: Seq::empty(), ..read_back(m) },
        ),
{
    lemma_key_texts_no_eq();
    lemma_key_texts();
    let s = no_fields();
    let e = Seq::<Seq<char>>::empty();
    let l0 = seq![kv_line(keys::VERSION@, METADATA_VERSION@)];
    assert(l0 =~= e.push(kv_line(keys::VERSION@, METADATA_VERSION@)));
    assert(parse_from(s, e) == Ok::<MetadataFields, Seq<char>>(s));
    lemma_parse_step(s, e, keys::VERSION@, METADATA_VERSION@);
    lemma_unescape_plain(METADATA_VERSION@);
    lemma_apply_fixed(s, METADATA_VERSION@);
    let x0 = MetadataFields { version: Some(METADATA_VERSION@), ..s };
    assert(parse_from(s, l0) == Ok::<MetadataFields, Seq<char>>(x0));
    lemma_kv_line_ok(keys::VERSION@, METADATA_VERSION@);
    lemma_all_ok_push(e, kv_line(keys::VERSION@, METADATA_VERSION@));

    let l1 = text_line(l0, m.caps, keys::CAPS@);
    lemma_text_step(s, l0, m.caps, keys::CAPS@);
    lemma_apply_fixed(x0, if let Some(v) = m.caps { v } else { Seq::empty() });
    let x1 = MetadataFields { caps: m.caps, ..x0 };
    assert(parse_from(s, l1) == Ok::<MetadataFields, Seq<char>>(x1));
    lemma_parse_numbers(s, l1, x1, m);
    let l6 = number_line(
        number_line(
            number_line(
                number_line(number_line(l1, m.pts, keys::PTS@), m.dts, keys::DTS@),
                m.duration,
                keys::DURATION@,
            ),
            m.offset,
            keys::OFFSET@,
        ),
        m.offset_end,
        keys::OFFSET_END@,
    );
    let x6 = MetadataFields {
        pts: m.pts,
        dts: m.dts,
        duration: m.duration,
        offset: m.offset,
        offset_end: m.offset_end,
        ..x1
    };
    lemma_parse_tail(s, l6, x6, m);
    assert(head_lines(m).len() >= 1);
}

/// Removing the prefix from a key it was put in front of gives the key back.
proof fn lemma_trim_user_prefix(k: Seq<char>)
    requires
        !starts_with(k, keys::USER_PREFIX@),
    ensures
        trim_prefixes(keys::USER_PREFIX@ + k, keys::USER_PREFIX@) == k,
{
    lemma_key_texts();
    let p = keys::USER_PREFIX@;
    assert((p + k).take(p.len() as int) =~= p);
    assert((p + k).skip(p.len() as int) =~= k);
    assert(trim_prefixes(p + k, p) == trim_prefixes((p + k).skip(p.len() as int), p));
    assert(trim_prefixes(k, p) == k);
}

/// The user lines read back as the user entries, in order.
proof fn lemma_parse_user(s: MetadataFields, u: Seq<(Seq<char>, Seq<char>)>)
    requires
        s.user.len() == 0,
        keys_unique(u),
        forall|i: int| 0 <= i < u.len() ==> user_key_safe(#[trigger] u[i].0) && value_safe(u[i].1),
    ensures
        all_lines_ok(user_lines(u)),
        parse_from(s, user_lines(u)) == Ok::<MetadataFields, Seq<char>>(
            MetadataFields { user: u, ..s },
        ),
    decreases u.len(),
{
    if u.len() == 0 {
        assert(user_lines(u) =~= Seq::<Seq<char>>::empty());
        assert(u =~= s.user);
    } else {
        let w = u.drop_last();
        assert forall|i: int| 0 <= i < w.len() implies user_key_safe(#[trigger] w[i].0)
            && value_safe(w[i].1) by {
            assert(w[i] == u[i]);
        }
        assert(keys_unique(w)) by {
            assert forall|i: int, j: int|
                0 <= i < w.len() && 0 <= j < w.len() && i != j implies #[trigger] w[i].0
                != #[trigger] w[j].0 by {
                assert(w[i] == u[i] && w[j] == u[j]);
            }
        }
        lemma_parse_user(s, w);
        let (k, v) = u.last();
        assert(u[u.len() - 1] == (k, v));
        assert(user_key_safe(k) && value_safe(v));
        let fk = keys::USER_PREFIX@ + k;
        assert(user_key(k) == fk);
        assert(user_lines(u) =~= user_lines(w).push(kv_line(fk, escape_newlines(v))));
        lemma_key_texts_no_eq();
        assert(!fk.contains('=')) by {
            if fk.contains('=') {
                let i = choose|i: int| 0 <= i < fk.len() && fk[i] == '=';
                if i < keys::USER_PREFIX@.len() {
                    assert(keys::USER_PREFIX@[i] == '=');
                } else {
                    assert(k[i - keys::USER_PREFIX@.len()] == '=');
                }
            }
        }
        assert(!fk.contains('\n')) by {
            if fk.contains('\n') {
                let i = choose|i: int| 0 <= i < fk.len() && fk[i] == '\n';
                if i < keys::USER_PREFIX@.len() {
                    assert(keys::USER_PREFIX@[i] == '\n');
                } else {
                    assert(k[i - keys::USER_PREFIX@.len()] == '\n');
                }
            }
        }
        lemma_escaped_value(v);
        lemma_kv_line_ok(fk, escape_newlines(v));
        lemma_all_ok_push(user_lines(w), kv_line(fk, escape_newlines(v)));
        lemma_parse_step(s, user_lines(w), fk, escape_newlines(v));
        let sw = MetadataFields { user: w, ..s };
        assert(starts_with(fk, keys::USER_PREFIX@)) by {
            assert(fk.take(keys::USER_PREFIX@.len() as int) =~= keys::USER_PREFIX@);
        }
        lemma_apply_user(sw, fk, v);
        lemma_trim_user_prefix(k);
        lemma_key_position(w, k);
        if key_position(w, k) >= 0 {
            let j = key_position(w, k);
            assert(u[j].0 == k && u[u.len() - 1].0 == k);
        }
        assert(upsert(w, k, v) =~= u);
    }
}

/// The lines of an attachment built from metadata whose texts survive are
/// read back as that metadata.
proof fn lemma_lines_parse(m: MetadataFields)
    requires
        texts_survive(m),
    ensures
        all_lines_ok(head_lines(m) + user_lines(m.user)),
        (head_lines(m) + user_lines(m.user)).len() >= 1,
        parse_from(no_fields(), head_lines(m) + user_lines(m.user)) == Ok::<
            MetadataFields,
            Seq<char>,
        >(read_back(m)),
{
    let h = head_lines(m);
    let u = user_lines(m.user);
    lemma_parse_head(m);
    let x = MetadataFields { user: Seq::empty(), ..read_back(m) };
    lemma_parse_user(x, m.user);
    lemma_parse_from_concat(no_fields(), h, u);
    let ls = h + u;
    assert forall|i: int| 0 <= i < ls.len() implies line_ok(#[trigger] ls[i]) by {
        if i < h.len() {
            assert(line_ok(h[i]));
        } else {
            assert(line_ok(u[i - h.len()]));
        }
    }
    assert(MetadataFields { user: m.user, ..x } == read_back(m));
}

/// A text without its trailing carriage returns.
pub open spec fn trim_crs(v: Seq<char>) -> Seq<char>
    decreases v.len(),
{
    if v.len() > 0 && v.last() == '\r' {
        trim_crs(v.drop_last())
    } else {
        v
    }
}

/// Whether the attachment of `m` has a line after its caps line.
pub open spec fn line_after_caps(m: MetadataFields) -> bool {
    ||| m.pts is Some
    ||| m.dts is Some
    ||| m.duration is Some
    ||| m.offset is Some
    ||| m.offset_end is Some
    ||| (m.flags matches Some(f) && flags_text(f).len() > 0)
    ||| m.compression is Some
    ||| m.key_expr is Some
    ||| m.user.len() > 0
}

/// `m` with the carriage returns that end its attachment's last line removed
/// from the text that line carries: the last user value, else the key
/// expression, else the compression, else the caps when no line follows them.
pub open spec fn last_line_trimmed(m: MetadataFields) -> MetadataFields {
    if m.user.len() > 0 {
        let e = m.user.last();
        MetadataFields { user: m.user.update(m.user.len() - 1, (e.0, trim_crs(e.1))), ..m }
    } else if m.key_expr is Some {
        MetadataFields { key_expr: Some(trim_crs(m.key_expr->Some_0)), ..m }
    } else if m.compression is Some {
        MetadataFields { compression: Some(trim_crs(m.compression->Some_0)), ..m }
    } else if m.caps is Some && !line_after_caps(m) {
        MetadataFields { caps: Some(trim_crs(m.caps->Some_0)), ..m }
    } else {
        m
    }
}

/// Metadata whose every text survives the round trip: every line reads back
/// as written once the reader drops the carriage return before each newline,
/// so only the text on the last line may end with carriage returns.
pub open spec fn roundtrip_safe(m: MetadataFields) -> bool {
    texts_survive(last_line_trimmed(m))
}

/// The text is its carriage-return-free part followed by carriage returns.
proof fn lemma_trim_crs(v: Seq<char>)
    ensures
        trim_crs(v).len() <= v.len(),
        v == trim_crs(v) + v.skip(trim_crs(v).len() as int),
        forall|i: int| 0 <= i < v.skip(trim_crs(v).len() as int).len() ==> #[trigger] v.skip(
            trim_crs(v).len() as int,
        )[i] == '\r',
        !(trim_crs(v).len() > 0 && trim_crs(v).last() == '\r'),
    decreases v.len(),
{
    if v.len() > 0 && v.last() == '\r' {
        let d = v.drop_last();
        lemma_trim_crs(d);
        let t = trim_crs(d);
        assert(trim_crs(v) == t);
        let a = t.len() as int;
        assert(d == t + d.skip(a));
        assert(v =~= d.push('\r'));
        assert(v.skip(a) =~= d.skip(a).push('\r'));
        assert forall|i: int| 0 <= i < v.skip(a).len() implies #[trigger] v.skip(a)[i] == '\r' by {
            if i < d.skip(a).len() {
                assert(v.skip(a)[i] == d.skip(a)[i]);
            }
        }
        assert(v =~= t + v.skip(a));
    } else {
        assert(v.skip(v.len() as int) =~= Seq::<char>::empty());
        assert(v =~= v + Seq::<char>::empty());
    }
}

/// Escaping text followed by characters other than newlines.
proof fn lemma_escape_append(a: Seq<char>, r: Seq<char>)
    requires
        !r.contains('\n'),
    ensures
        escape_newlines(a + r) == escape_newlines(a) + r,
    decreases r.len(),
{
    if r.len() > 0 {
        let d = r.drop_last();
        assert(!d.contains('\n')) by {
            if d.contains('\n') {
                let i = choose|i: int| 0 <= i < d.len() && d[i] == '\n';
                assert(r[i] == '\n');
            }
        }
        lemma_escape_append(a, d);
        assert((a + r).drop_last() =~= a + d);
        assert((a + r).last() == r.last());
        assert(r.contains(r.last()));
        assert(escape_newlines(a) + r =~= escape_newlines(a) + d + seq![r.last()]);
    } else {
        assert(a + r =~= a);
        assert(escape_newlines(a) + r =~= escape_newlines(a));
    }
}

/// Reading escapes of text followed by text that does not start with `n`.
proof fn lemma_unescape_append(a: Seq<char>, b: Seq<char>)
    requires
        b.len() == 0 || b[0] != 'n',
    ensures
        unescape_newlines(a + b) == unescape_newlines(a) + unescape_newlines(b),
    decreases a.len(),
{
    if a.len() == 0 {
        assert(a + b =~= b);
        assert(unescape_newlines(a) + unescape_newlines(b) =~= unescape_newlines(b));
    } else if a.len() >= 2 && a[0] == '\\' && a[1] == 'n' {
        lemma_unescape_append(a.skip(2), b);
        assert((a + b).skip(2) =~= a.skip(2) + b);
        assert(unescape_newlines(a + b) == seq!['\n'] + unescape_newlines((a + b).skip(2)));
        assert(seq!['\n'] + (unescape_newlines(a.skip(2)) + unescape_newlines(b)) =~= (seq!['\n']
            + unescape_newlines(a.skip(2))) + unescape_newlines(b));
    } else {
        lemma_unescape_append(a.drop_first(), b);
        assert((a + b).drop_first() =~= a.drop_first() + b);
        if a.len() == 1 && a[0] == '\\' && b.len() >= 1 {
            assert((a + b)[1] == b[0]);
        }
        assert(unescape_newlines(a + b) == seq![a[0]] + unescape_newlines((a + b).drop_first()));
        assert(seq![a[0]] + (unescape_newlines(a.drop_first()) + unescape_newlines(b)) =~= (seq![
            a[0],
        ] + unescape_newlines(a.drop_first())) + unescape_newlines(b));
    }
}

/// Only carriage returns: no newline, no backslash, no escape pair, and the
/// escaped and unescaped text are the text itself.
proof fn lemma_crs_plain(r: Seq<char>)
    requires
        forall|i: int| 0 <= i < r.len() ==> #[trigger] r[i] == '\r',
    ensures
        !r.contains('\n'),
        unescape_newlines(r) == r,
        r.len() == 0 || r[0] != 'n',
{
    if r.contains('\n') {
        let i = choose|i: int| 0 <= i < r.len() && r[i] == '\n';
        assert(r[i] == '\r');
    }
    assert(!has_escape_pair(r)) by {
        if has_escape_pair(r) {
            let i = choose|i: int| 0 <= i < r.len() - 1 && r[i] == '\\' && #[trigger] r[i + 1] == 'n';
            assert(r[i] == '\r');
        }
    }
    lemma_unescape_plain(r);
}

/// Lines joined by newlines are read back by `lines_of` when no line holds a
/// newline, the last is not empty, and only the last ends with a carriage
/// return.
proof fn lemma_lines_of_join_last_cr(ls: Seq<Seq<char>>)
    requires
        ls.len() >= 1,
        forall|i: int| 0 <= i < ls.len() ==> !(#[trigger] ls[i]).contains('\n'),
        forall|i: int| 0 <= i < ls.len() - 1 ==> strip_cr(#[trigger] ls[i]) == ls[i],
        ls.last().len() > 0,
    ensures
        lines_of(join(ls, seq!['\n'])) == ls,
{
    lemma_split_join(ls, '\n');
    assert(lines_of(join(ls, seq!['\n'])) =~= ls);
}

/// When the last of some well-formed lines is a `key=value` line, the same
/// lines with carriage returns after that value read back as the value with
/// those carriage returns.
proof fn lemma_last_line_cr(
    s: MetadataFields,
    lp: Seq<Seq<char>>,
    k: Seq<char>,
    e: Seq<char>,
    r: Seq<char>,
)
    requires
        parse_from(s, lp) is Ok,
        all_lines_ok(lp.push(kv_line(k, e))),
        !k.contains('='),
        forall|i: int| 0 <= i < r.len() ==> #[trigger] r[i] == '\r',
    ensures
        lines_of(join(lp.push(kv_line(k, e + r)), seq!['\n'])) == lp.push(kv_line(k, e + r)),
        parse_from(s, lp.push(kv_line(k, e + r))) == Ok::<MetadataFields, Seq<char>>(
            apply_pair(parse_from(s, lp)->Ok_0, k, unescape_newlines(e) + r),
        ),
{
    lemma_crs_plain(r);
    let l0 = kv_line(k, e);
    let l1 = kv_line(k, e + r);
    assert(l1 =~= l0 + r);
    let ls = lp.push(l1);
    assert(line_ok(lp.push(l0)[lp.len() as int]));
    assert forall|i: int| 0 <= i < ls.len() implies !(#[trigger] ls[i]).contains('\n') by {
        if i < lp.len() {
            assert(ls[i] == lp.push(l0)[i]);
            assert(line_ok(lp.push(l0)[i]));
        } else {
            if l1.contains('\n') {
                let j = choose|j: int| 0 <= j < l1.len() && l1[j] == '\n';
                if j < l0.len() {
                    assert(l0[j] == '\n');
                } else {
                    assert(r[j - l0.len()] == '\n');
                }
            }
        }
    }
    assert forall|i: int| 0 <= i < ls.len() - 1 implies strip_cr(#[trigger] ls[i]) == ls[i] by {
        assert(ls[i] == lp.push(l0)[i]);
        assert(line_ok(lp.push(l0)[i]));
    }
    lemma_lines_of_join_last_cr(ls);
    lemma_parse_step(s, lp, k, e + r);
    lemma_unescape_append(e, r);
}

/// Carriage returns after the last user value of upserted entries.
proof fn lemma_upsert_last(
    xs: Seq<(Seq<char>, Seq<char>)>,
    k: Seq<char>,
    w: Seq<char>,
    v: Seq<char>,
)
    requires
        keys_unique(upsert(xs, k, w)),
        upsert(xs, k, w).len() > 0,
        upsert(xs, k, w).last() == (k, w),
    ensures
        upsert(xs, k, v) == upsert(xs, k, w).update(upsert(xs, k, w).len() - 1, (k, v)),
{
    lemma_key_position(xs, k);
    let i = key_position(xs, k);
    let u = upsert(xs, k, w);
    if i >= 0 {
        assert(u[i].0 == k);
        assert(u[u.len() - 1].0 == k);
        assert(i == u.len() - 1);
        assert(xs.update(i, (k, v)) =~= u.update(i, (k, v)));
    } else {
        assert(xs.push((k, v)) =~= u.update(u.len() - 1, (k, v)));
    }
}

/// A prefix of lines that read without error reads without error.
proof fn lemma_parse_prefix_ok(s: MetadataFields, lp: Seq<Seq<char>>, l: Seq<char>)
    requires
        parse_from(s, lp.push(l)) is Ok,
    ensures
        parse_from(s, lp) is Ok,
{
    assert(lp.push(l).drop_last() =~= lp);
}

/// What the round trip needs of the lines of `m`: they read back as
/// `read_back(m)`.
spec fn lines_read_back(m: MetadataFields) -> bool {
    let ls = head_lines(m) + user_lines(m.user);
    &&& lines_of(join(ls, seq!['\n'])) == ls
    &&& parse_from(no_fields(), ls) == Ok::<MetadataFields, Seq<char>>(read_back(m))
}

/// The round trip when the last user value ends with carriage returns.
#[verifier::spinoff_prover]
proof fn lemma_roundtrip_last_user(m: MetadataFields)
    requires
        roundtrip_safe(m),
        m.user.len() > 0,
    ensures
        lines_read_back(m),
{
    let t = last_line_trimmed(m);
    lemma_lines_parse(t);
    let s = no_fields();
    let ht = head_lines(t);
    let ut = user_lines(t.user);
    let n = m.user.len();
    let (k, v) = m.user.last();
    let w = trim_crs(v);
    lemma_trim_crs(v);
    let r = v.skip(w.len() as int);
    lemma_crs_plain(r);
    assert(t.user[n - 1] == (k, w));
    assert(user_key_safe(t.user[n - 1].0) && value_safe(t.user[n - 1].1));
    lemma_key_texts();
    let fk = keys::USER_PREFIX@ + k;
    assert(user_key(k) == fk);
    assert(!fk.contains('=')) by {
        if fk.contains('=') {
            let i = choose|i: int| 0 <= i < fk.len() && fk[i] == '=';
            if i < keys::USER_PREFIX@.len() {
                assert(keys::USER_PREFIX@[i] == '=');
            } else {
                assert(k[i - keys::USER_PREFIX@.len()] == '=');
            }
        }
    }
    assert(head_lines(m) == ht);
    let e = escape_newlines(w);
    lemma_escape_append(w, r);
    assert(escape_newlines(v) == e + r);
    let lp = ht + ut.drop_last();
    assert(ut[n - 1] == kv_line(fk, e));
    assert(ht + ut =~= lp.push(kv_line(fk, e)));
    assert(head_lines(m) + user_lines(m.user) =~= lp.push(kv_line(fk, e + r)));
    lemma_parse_prefix_ok(s, lp, kv_line(fk, e));
    lemma_last_line_cr(s, lp, fk, e, r);
    lemma_unescape_escape(w);
    let x = parse_from(s, lp)->Ok_0;
    lemma_parse_step(s, lp, fk, e);
    assert(starts_with(fk, keys::USER_PREFIX@)) by {
        assert(fk.take(keys::USER_PREFIX@.len() as int) =~= keys::USER_PREFIX@);
    }
    lemma_apply_user(x, fk, w);
    lemma_apply_user(x, fk, v);
    lemma_trim_user_prefix(k);
    assert(read_back(t).user == t.user);
    assert(upsert(x.user, k, w) == t.user);
    assert(keys_unique(t.user));
    lemma_upsert_last(x.user, k, w, v);
    assert(m.user =~= t.user.update(n - 1, (k, v)));
}

/// The round trip when the last line is a text line of a fixed key: the text
/// `v` on it ends with carriage returns, `w` is `v` without them, and the line
/// holds `e + r` where `e` reads back as `w`.
proof fn lemma_roundtrip_fixed_last(
    m: MetadataFields,
    t: MetadataFields,
    k: Seq<char>,
    w: Seq<char>,
    v: Seq<char>,
    e: Seq<char>,
    r: Seq<char>,
)
    requires
        all_lines_ok(head_lines(t)),
        head_lines(t).len() >= 1,
        parse_from(no_fields(), head_lines(t)) == Ok::<MetadataFields, Seq<char>>(read_back(t)),
        user_lines(m.user).len() == 0,
        user_lines(t.user).len() == 0,
        head_lines(t) == head_lines(t).drop_last().push(kv_line(k, e)),
        head_lines(m) == head_lines(t).drop_last().push(kv_line(k, e + r)),
        !k.contains('='),
        forall|i: int| 0 <= i < r.len() ==> #[trigger] r[i] == '\r',
        unescape_newlines(e) == w,
        v == w + r,
        forall|x: MetadataFields| #[trigger] apply_pair(x, k, w) == read_back(t) ==> apply_pair(
            x,
            k,
            v,
        ) == read_back(m),
    ensures
        lines_read_back(m),
{
    let s = no_fields();
    let lp = head_lines(t).drop_last();
    assert(head_lines(m) + user_lines(m.user) =~= head_lines(m));
    lemma_parse_prefix_ok(s, lp, kv_line(k, e));
    lemma_last_line_cr(s, lp, k, e, r);
    lemma_parse_step(s, lp, k, e);
    let x = parse_from(s, lp)->Ok_0;
    assert(apply_pair(x, k, w) == read_back(t));
}

/// An attachment built from metadata reads back as that metadata, stamped
/// with the current version and with the flags only when any is set, as long
/// as every text in it survives the round trip.
pub proof fn lemma_attachment_roundtrip(m: MetadataFields)
    requires
        roundtrip_safe(m),
    ensures
        parse_attachment(encode_utf8(attachment_text(m))) == Ok::<MetadataFields, Seq<char>>(
            read_back(m),
        ),
{
    broadcast use vstd::utf8::encode_utf8_valid_utf8, vstd::utf8::encode_utf8_decode_utf8;

    let t = last_line_trimmed(m);
    lemma_lines_parse(t);
    lemma_key_texts_no_eq();
    if t == m {
        let ls = head_lines(t) + user_lines(t.user);
        assert forall|i: int| 0 <= i < ls.len() implies !(#[trigger] ls[i]).contains('\n')
            && strip_cr(ls[i]) == ls[i] && ls[i].len() > 0 by {
            assert(line_ok(ls[i]));
        }
        lemma_lines_of_join(ls);
    } else if m.user.len() > 0 {
        lemma_roundtrip_last_user(m);
    } else {
        assert(user_lines(m.user) =~= Seq::<Seq<char>>::empty());
        assert(user_lines(t.user) =~= Seq::<Seq<char>>::empty());
        assert(head_lines(t) + user_lines(t.user) =~= head_lines(t));
        assert forall|i: int| 0 <= i < head_lines(t).len() implies line_ok(
            #[trigger] head_lines(t)[i],
        ) by {
            assert((head_lines(t) + user_lines(t.user))[i] == head_lines(t)[i]);
        }
        let k;
        let v;
        if m.key_expr is Some {
            k = keys::KEY_EXPR@;
            v = m.key_expr->Some_0;
        } else if m.compression is Some {
            k = keys::COMPRESSION@;
            v = m.compression->Some_0;
        } else {
            k = keys::CAPS@;
            v = m.caps->Some_0;
        }
        let w = trim_crs(v);
        lemma_trim_crs(v);
        let r = v.skip(w.len() as int);
        lemma_crs_plain(r);
        assert forall|x: MetadataFields| #[trigger] apply_pair(x, k, w) == read_back(t) implies apply_pair(
            x,
            k,
            v,
        ) == read_back(m) by {
            lemma_apply_fixed(x, w);
            lemma_apply_fixed(x, v);
        }
        if m.key_expr is Some {
            let e = escape_newlines(w);
            lemma_escape_append(w, r);
            lemma_unescape_escape(w);
            assert(t.key_expr == Some(w));
            assert(head_compression(t) == head_compression(m));
            assert(head_lines(t) == head_compression(t).push(kv_line(k, e)));
            assert(head_lines(t).drop_last() =~= head_compression(t));
            assert(head_lines(m) == head_compression(m).push(kv_line(k, e + r)));
            lemma_roundtrip_fixed_last(m, t, k, w, v, e, r);
        } else if m.compression is Some {
            lemma_unescape_plain(w);
            assert(t.compression == Some(w));
            assert(head_flags(t) == head_flags(m));
            assert(head_lines(t) == head_flags(t).push(kv_line(k, w)));
            assert(head_lines(t).drop_last() =~= head_flags(t));
            assert(head_lines(m) == head_flags(m).push(kv_line(k, w + r)));
            lemma_roundtrip_fixed_last(m, t, k, w, v, w, r);
        } else {
            let e = escape_newlines(w);
            lemma_escape_append(w, r);
            lemma_unescape_escape(w);
            assert(!line_after_caps(m));
            assert(t.caps == Some(w));
            let l0 = seq![kv_line(keys::VERSION@, METADATA_VERSION@)];
            assert(head_lines(m) == head_caps(m));
            assert(head_lines(t) == head_caps(t));
            assert(head_caps(t) == l0.push(kv_line(k, e)));
            assert(head_caps(t).drop_last() =~= l0);
            assert(head_caps(m) == l0.push(kv_line(k, e + r)));
            lemma_roundtrip_fixed_last(m, t, k, w, v, e, r);
        }
    }
}

} // verus!
