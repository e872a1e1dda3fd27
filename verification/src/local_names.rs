use vstd::prelude::*;
use crate::text::{
    chars_of, contains_chars, contains_seq, is_whitespace, is_ws, lower_text, lowercase, occurs_at, occurs_at_exec,
    string_from_chars, to_lowercase, trim, trim_end, trim_end_index, trimmed_chars, lemma_trim_shortens,
    all_digits, is_digit,
};

verus! {

// ---------------------------------------------------------------------------
// Name keys
// ---------------------------------------------------------------------------

/// `char::is_alphanumeric` beyond ASCII: the Unicode Alphabetic or Numeric
/// property.
pub uninterp spec fn is_alnum(c: char) -> bool;

/// Whether `c` is alphanumeric: of ASCII characters the letters and digits,
/// as documented; of the others, the Unicode property.
pub open spec fn alnum_char(c: char) -> bool {
    if (c as u32) < 128 {
        ('a' <= c && c <= 'z') || ('A' <= c && c <= 'Z') || ('0' <= c && c <= '9')
    } else {
        is_alnum(c)
    }
}

/// `char::is_alphanumeric`. Of ASCII characters exactly the letters and
/// digits are alphanumeric, as documented; of the others the result is
/// named `is_alnum` of the character, and nothing more of the Unicode tables
/// is claimed.
#[verifier::external_body]
fn char_is_alphanumeric(c: char) -> (r: bool)
    ensures
        (c as u32) >= 128 ==> r == is_alnum(c),
        r == alnum_char(c),
{
    c.is_alphanumeric()
}

/// The letter an accented Latin letter is written on: "é" is an "e" with an
/// accent, "Ř" an "R". Other characters are their own base.
pub open spec fn base_letter(c: char) -> char {
    let u = c as u32;
    if 0xc0 <= u <= 0xc5 || u == 0x100 || u == 0x102 || u == 0x104 {
        'A'
    } else if u == 0xc7 || u == 0x106 || u == 0x108 || u == 0x10a || u == 0x10c {
        'C'
    } else if u == 0x10e {
        'D'
    } else if 0xc8 <= u <= 0xcb || u == 0x112 || u == 0x114 || u == 0x116 || u == 0x118 || u == 0x11a {
        'E'
    } else if u == 0x11c || u == 0x11e || u == 0x120 || u == 0x122 {
        'G'
    } else if u == 0x124 {
        'H'
    } else if 0xcc <= u <= 0xcf || u == 0x128 || u == 0x12a || u == 0x12c || u == 0x12e || u == 0x130 {
        'I'
    } else if u == 0x134 {
        'J'
    } else if u == 0x136 {
        'K'
    } else if u == 0x139 || u == 0x13b || u == 0x13d {
        'L'
    } else if u == 0xd1 || u == 0x143 || u == 0x145 || u == 0x147 {
        'N'
    } else if 0xd2 <= u <= 0xd6 || u == 0x14c || u == 0x14e || u == 0x150 {
        'O'
    } else if u == 0x154 || u == 0x156 || u == 0x158 {
        'R'
    } else if u == 0x15a || u == 0x15c || u == 0x15e || u == 0x160 {
        'S'
    } else if u == 0x162 || u == 0x164 {
        'T'
    } else if 0xd9 <= u <= 0xdc || u == 0x168 || u == 0x16a || u == 0x16c || u == 0x16e || u == 0x170 || u == 0x172 {
        'U'
    } else if u == 0x174 {
        'W'
    } else if u == 0xdd || u == 0x176 || u == 0x178 {
        'Y'
    } else if u == 0x179 || u == 0x17b || u == 0x17d {
        'Z'
    } else if 0xe0 <= u <= 0xe5 || u == 0x101 || u == 0x103 || u == 0x105 {
        'a'
    } else if u == 0xe7 || u == 0x107 || u == 0x109 || u == 0x10b || u == 0x10d {
        'c'
    } else if u == 0x10f {
        'd'
    } else if 0xe8 <= u <= 0xeb || u == 0x113 || u == 0x115 || u == 0x117 || u == 0x119 || u == 0x11b {
        'e'
    } else if u == 0x11d || u == 0x11f || u == 0x121 || u == 0x123 {
        'g'
    } else if u == 0x125 {
        'h'
    } else if 0xec <= u <= 0xef || u == 0x129 || u == 0x12b || u == 0x12d || u == 0x12f {
        'i'
    } else if u == 0x135 {
        'j'
    } else if u == 0x137 {
        'k'
    } else if u == 0x13a || u == 0x13c || u == 0x13e {
        'l'
    } else if u == 0xf1 || u == 0x144 || u == 0x146 || u == 0x148 {
        'n'
    } else if 0xf2 <= u <= 0xf6 || u == 0x14d || u == 0x14f || u == 0x151 {
        'o'
    } else if u == 0x155 || u == 0x157 || u == 0x159 {
        'r'
    } else if u == 0x15b || u == 0x15d || u == 0x15f || u == 0x161 {
        's'
    } else if u == 0x163 || u == 0x165 {
        't'
    } else if 0xf9 <= u <= 0xfc || u == 0x169 || u == 0x16b || u == 0x16d || u == 0x16f || u == 0x171 || u == 0x173 {
        'u'
    } else if u == 0x175 {
        'w'
    } else if u == 0xfd || u == 0xff || u == 0x177 {
        'y'
    } else if u == 0x17a || u == 0x17c || u == 0x17e {
        'z'
    } else {
        c
    }
}

fn to_base_letter(c: char) -> (r: char)
    ensures
        r == base_letter(c),
{
    let u = c as u32;
    if (0xc0 <= u && u <= 0xc5) || u == 0x100 || u == 0x102 || u == 0x104 {
        'A'
    } else if u == 0xc7 || u == 0x106 || u == 0x108 || u == 0x10a || u == 0x10c {
        'C'
    } else if u == 0x10e {
        'D'
    } else if (0xc8 <= u && u <= 0xcb) || u == 0x112 || u == 0x114 || u == 0x116 || u == 0x118 || u == 0x11a {
        'E'
    } else if u == 0x11c || u == 0x11e || u == 0x120 || u == 0x122 {
        'G'
    } else if u == 0x124 {
        'H'
    } else if (0xcc <= u && u <= 0xcf) || u == 0x128 || u == 0x12a || u == 0x12c || u == 0x12e || u == 0x130 {
        'I'
    } else if u == 0x134 {
        'J'
    } else if u == 0x136 {
        'K'
    } else if u == 0x139 || u == 0x13b || u == 0x13d {
        'L'
    } else if u == 0xd1 || u == 0x143 || u == 0x145 || u == 0x147 {
        'N'
    } else if (0xd2 <= u && u <= 0xd6) || u == 0x14c || u == 0x14e || u == 0x150 {
        'O'
    } else if u == 0x154 || u == 0x156 || u == 0x158 {
        'R'
    } else if u == 0x15a || u == 0x15c || u == 0x15e || u == 0x160 {
        'S'
    } else if u == 0x162 || u == 0x164 {
        'T'
    } else if (0xd9 <= u && u <= 0xdc) || u == 0x168 || u == 0x16a || u == 0x16c || u == 0x16e || u == 0x170 || u == 0x172 {
        'U'
    } else if u == 0x174 {
        'W'
    } else if u == 0xdd || u == 0x176 || u == 0x178 {
        'Y'
    } else if u == 0x179 || u == 0x17b || u == 0x17d {
        'Z'
    } else if (0xe0 <= u && u <= 0xe5) || u == 0x101 || u == 0x103 || u == 0x105 {
        'a'
    } else if u == 0xe7 || u == 0x107 || u == 0x109 || u == 0x10b || u == 0x10d {
        'c'
    } else if u == 0x10f {
        'd'
    } else if (0xe8 <= u && u <= 0xeb) || u == 0x113 || u == 0x115 || u == 0x117 || u == 0x119 || u == 0x11b {
        'e'
    } else if u == 0x11d || u == 0x11f || u == 0x121 || u == 0x123 {
        'g'
    } else if u == 0x125 {
        'h'
    } else if (0xec <= u && u <= 0xef) || u == 0x129 || u == 0x12b || u == 0x12d || u == 0x12f {
        'i'
    } else if u == 0x135 {
        'j'
    } else if u == 0x137 {
        'k'
    } else if u == 0x13a || u == 0x13c || u == 0x13e {
        'l'
    } else if u == 0xf1 || u == 0x144 || u == 0x146 || u == 0x148 {
        'n'
    } else if (0xf2 <= u && u <= 0xf6) || u == 0x14d || u == 0x14f || u == 0x151 {
        'o'
    } else if u == 0x155 || u == 0x157 || u == 0x159 {
        'r'
    } else if u == 0x15b || u == 0x15d || u == 0x15f || u == 0x161 {
        's'
    } else if u == 0x163 || u == 0x165 {
        't'
    } else if (0xf9 <= u && u <= 0xfc) || u == 0x169 || u == 0x16b || u == 0x16d || u == 0x16f || u == 0x171 || u == 0x173 {
        'u'
    } else if u == 0x175 {
        'w'
    } else if u == 0xfd || u == 0xff || u == 0x177 {
        'y'
    } else if u == 0x17a || u == 0x17c || u == 0x17e {
        'z'
    } else {
        c
    }
}

/// A combining accent, written after the letter it marks.
pub open spec fn is_combining_mark(c: char) -> bool {
    0x300 <= c as u32 <= 0x36f
}

/// The text with its accents folded away: accented Latin letters become
/// their base letters and combining accents are dropped, so "Beyoncé" and
/// "Beyonce" read alike.
pub open spec fn fold_accents(s: Seq<char>) -> Seq<char>
    decreases s.len(),
{
    if s.len() == 0 {
        s
    } else if is_combining_mark(s.last()) {
        fold_accents(s.drop_last())
    } else {
        fold_accents(s.drop_last()).push(base_letter(s.last()))
    }
}

/// Runs of non-alphanumeric characters become one space; leading ones are
/// dropped (a trailing one may remain).
pub open spec fn squeeze(s: Seq<char>) -> Seq<char>
    decreases s.len(),
{
    if s.len() == 0 {
        s
    } else {
        let r = squeeze(s.drop_last());
        let c = s.last();
        if alnum_char(c) {
            r.push(c)
        } else if r.len() == 0 || r.last() == ' ' {
            r
        } else {
            r.push(' ')
        }
    }
}

/// The comparison key of a name: lower-cased, accents folded away, every
/// run of punctuation or space turned into a single space, no space at
/// either end.
pub open spec fn spec_name_key(name: Seq<char>) -> Seq<char> {
    let s = squeeze(fold_accents(lower_text(name)));
    if s.len() > 0 && s.last() == ' ' {
        s.drop_last()
    } else {
        s
    }
}

pub fn name_key(name: &str) -> (r: String)
    ensures
        r@ == spec_name_key(name@),
{
    let l = to_lowercase(name);
    let v = chars_of(l.as_str());
    let mut out: Vec<char> = Vec::new();
    let mut i: usize = 0;
    while i < v.len()
        invariant
            0 <= i <= v@.len(),
            out@ == squeeze(fold_accents(v@.take(i as int))),
        decreases v@.len() - i,
    {
        let c = v[i];
        proof {
            assert(v@.take(i + 1).drop_last() =~= v@.take(i as int));
            assert(v@.take(i + 1).last() == c);
        }
        let cu = c as u32;
        if !(0x300 <= cu && cu <= 0x36f) {
            let b = to_base_letter(c);
            proof {
                assert(fold_accents(v@.take(i + 1)).drop_last() =~= fold_accents(v@.take(i as int)));
            }
            if char_is_alphanumeric(b) {
                out.push(b);
            } else if out.len() == 0 || out[out.len() - 1] == ' ' {
            } else {
                out.push(' ');
            }
        }
        i = i + 1;
    }
    proof {
        assert(v@.take(i as int) =~= v@);
    }
    if out.len() > 0 && out[out.len() - 1] == ' ' {
        out.pop();
        proof {
            assert(out@ =~= squeeze(fold_accents(v@)).drop_last());
        }
    }
    string_from_chars(&out)
}

// ---------------------------------------------------------------------------
// Edition suffixes
// ---------------------------------------------------------------------------

/// The tail mentions an edition marker ("remaster", "deluxe", ...), once
/// lower-cased.
pub open spec fn marked(tail: Seq<char>) -> bool {
    let l = lowercase(tail);
    ||| contains_seq(l, "remaster"@)
    ||| contains_seq(l, "deluxe"@)
    ||| contains_seq(l, "expanded"@)
    ||| contains_seq(l, "anniversary"@)
    ||| contains_seq(l, "edition"@)
    ||| contains_seq(l, "reissue"@)
    ||| contains_seq(l, "re-release"@)
    ||| contains_seq(l, "mix"@)
    ||| contains_seq(l, "version"@)
    ||| contains_seq(l, "mono"@)
    ||| contains_seq(l, "stereo"@)
    ||| contains_seq(l, "sacd"@)
    ||| contains_seq(l, "bonus"@)
    ||| contains_seq(l, "legacy"@)
    ||| contains_seq(l, "collector"@)
}

fn mentions(l: &Vec<char>, marker: &str) -> (r: bool)
    ensures
        r == contains_seq(l@, marker@),
{
    let m = chars_of(marker);
    contains_chars(l, &m)
}

fn is_marked(tail: &Vec<char>) -> (r: bool)
    ensures
        r == marked(tail@),
{
    let t = string_from_chars(tail);
    let lower = to_lowercase(t.as_str());
    let l = chars_of(lower.as_str());
    mentions(&l, "remaster") || mentions(&l, "deluxe") || mentions(&l, "expanded") || mentions(
        &l,
        "anniversary",
    ) || mentions(&l, "edition") || mentions(&l, "reissue") || mentions(&l, "re-release")
        || mentions(&l, "mix") || mentions(&l, "version") || mentions(&l, "mono") || mentions(
        &l,
        "stereo",
    ) || mentions(&l, "sacd") || mentions(&l, "bonus") || mentions(&l, "legacy") || mentions(
        &l,
        "collector",
    )
}

pub open spec fn is_opener(c: char) -> bool {
    c == '(' || c == '[' || c == '{'
}

/// The last bracket opener below index `j` whose tail is marked, or -1.
pub open spec fn marked_opener_below(v: Seq<char>, j: int) -> int
    decreases j,
{
    if j <= 0 {
        -1
    } else if is_opener(v[j - 1]) && marked(v.skip(j)) {
        j - 1
    } else {
        marked_opener_below(v, j - 1)
    }
}

/// The start of the last occurrence of `sep` in `v`, or -1 (`str::rfind`).
pub open spec fn last_occurrence_below(v: Seq<char>, sep: Seq<char>, j: int) -> int
    decreases j,
{
    if j <= 0 {
        -1
    } else if occurs_at(v, sep, j - 1) {
        j - 1
    } else {
        last_occurrence_below(v, sep, j - 1)
    }
}

pub open spec fn last_occurrence(v: Seq<char>, sep: Seq<char>) -> int {
    last_occurrence_below(v, sep, (v.len() + 1) as int)
}

/// The separator at `idx` (when found) has a marked tail.
pub open spec fn sep_marked(v: Seq<char>, sep: Seq<char>) -> bool {
    let idx = last_occurrence(v, sep);
    idx >= 0 && marked(v.skip(idx + sep.len()))
}

/// `strip_edition_suffix`: the value without a trailing edition marker —
/// the last bracket whose tail is marked, else the last " - ", " – " or
/// " — " (in that order) followed by a marked tail, cut away with the
/// white space before it; otherwise the value trimmed.
pub open spec fn spec_strip_edition(v: Seq<char>) -> Seq<char> {
    let o = marked_opener_below(v, v.len() as int);
    let hy = seq![' ', '-', ' '];
    let en = seq![' ', '\u{2013}', ' '];
    let em = seq![' ', '\u{2014}', ' '];
    if o >= 0 {
        trim_end(v.take(o))
    } else if sep_marked(v, hy) {
        trim_end(v.take(last_occurrence(v, hy)))
    } else if sep_marked(v, en) {
        trim_end(v.take(last_occurrence(v, en)))
    } else if sep_marked(v, em) {
        trim_end(v.take(last_occurrence(v, em)))
    } else {
        trim(v)
    }
}

fn prefix_trim_end(v: &Vec<char>, n: usize) -> (r: Vec<char>)
    requires
        n <= v@.len(),
    ensures
        r@ == trim_end(v@.take(n as int)),
{
    let mut p: Vec<char> = Vec::new();
    let mut i: usize = 0;
    while i < n
        invariant
            n <= v@.len(),
            0 <= i <= n,
            p@ == v@.take(i as int),
        decreases n - i,
    {
        p.push(v[i]);
        proof {
            assert(v@.take(i + 1) =~= v@.take(i as int).push(v@[i as int]));
        }
        i = i + 1;
    }
    let j = trim_end_index(&p, 0);
    proof {
        assert(p@.subrange(0, p@.len() as int) =~= p@);
    }
    let mut r: Vec<char> = Vec::new();
    let mut k: usize = 0;
    while k < j
        invariant
            j <= p@.len(),
            0 <= k <= j,
            r@ == p@.subrange(0, k as int),
        decreases j - k,
    {
        r.push(p[k]);
        proof {
            assert(p@.subrange(0, k + 1) =~= p@.subrange(0, k as int).push(p@[k as int]));
        }
        k = k + 1;
    }
    r
}

fn tail_from(v: &Vec<char>, start: usize) -> (r: Vec<char>)
    requires
        start <= v@.len(),
    ensures
        r@ == v@.skip(start as int),
{
    let mut r: Vec<char> = Vec::new();
    let mut i: usize = start;
    while i < v.len()
        invariant
            start <= i <= v@.len(),
            r@ == v@.subrange(start as int, i as int),
        decreases v@.len() - i,
    {
        r.push(v[i]);
        proof {
            assert(v@.subrange(start as int, i + 1) =~= v@.subrange(start as int, i as int).push(
                v@[i as int],
            ));
        }
        i = i + 1;
    }
    proof {
        assert(v@.subrange(start as int, v@.len() as int) =~= v@.skip(start as int));
    }
    r
}

fn find_marked_opener(v: &Vec<char>) -> (r: Option<usize>)
    ensures
        match r {
            Some(o) => o < v@.len() && marked_opener_below(v@, v@.len() as int) == o,
            None => marked_opener_below(v@, v@.len() as int) == -1,
        },
{
    let mut j: usize = v.len();
    while j > 0
        invariant
            j <= v@.len(),
            marked_opener_below(v@, v@.len() as int) == marked_opener_below(v@, j as int),
        decreases j,
    {
        let c = v[j - 1];
        if c == '(' || c == '[' || c == '{' {
            let tail = tail_from(v, j);
            if is_marked(&tail) {
                return Some(j - 1);
            }
        }
        j = j - 1;
    }
    None
}

fn find_last(v: &Vec<char>, sep: &Vec<char>) -> (r: Option<usize>)
    ensures
        match r {
            Some(i) => i <= v@.len() && last_occurrence(v@, sep@) == i && occurs_at(v@, sep@, i as int),
            None => last_occurrence(v@, sep@) == -1,
        },
{
    let mut j: usize = v.len();
    loop
        invariant
            j <= v@.len(),
            last_occurrence(v@, sep@) == last_occurrence_below(v@, sep@, j + 1),
        decreases j,
    {
        if occurs_at_exec(v, sep, j) {
            return Some(j);
        }
        if j == 0 {
            assert(last_occurrence_below(v@, sep@, 0) == -1);
            return None;
        }
        j = j - 1;
    }
}

fn sep_cut(v: &Vec<char>, sep: &Vec<char>) -> (r: Option<usize>)
    ensures
        match r {
            Some(i) => sep_marked(v@, sep@) && i == last_occurrence(v@, sep@) && i <= v@.len(),
            None => !sep_marked(v@, sep@),
        },
{
    match find_last(v, sep) {
        Some(i) => {
            let n = sep.len();
            assert(occurs_at(v@, sep@, i as int));
            assert(i + n <= v.len());
            let tail = tail_from(v, i + n);
            if is_marked(&tail) {
                Some(i)
            } else {
                None
            }
        },
        None => None,
    }
}

fn strip_edition_chars(v: &Vec<char>) -> (r: Vec<char>)
    ensures
        r@ == spec_strip_edition(v@),
{
    if let Some(o) = find_marked_opener(v) {
        return prefix_trim_end(v, o);
    }
    let hy: Vec<char> = vec![' ', '-', ' '];
    let en: Vec<char> = vec![' ', '\u{2013}', ' '];
    let em: Vec<char> = vec![' ', '\u{2014}', ' '];
    proof {
        assert(hy@ =~= seq![' ', '-', ' ']);
        assert(en@ =~= seq![' ', '\u{2013}', ' ']);
        assert(em@ =~= seq![' ', '\u{2014}', ' ']);
    }
    if let Some(i) = sep_cut(v, &hy) {
        return prefix_trim_end(v, i);
    }
    if let Some(i) = sep_cut(v, &en) {
        return prefix_trim_end(v, i);
    }
    if let Some(i) = sep_cut(v, &em) {
        return prefix_trim_end(v, i);
    }
    let s = string_from_chars(v);
    trimmed_chars(s.as_str())
}

/// `strip_edition_suffix`.
pub fn strip_edition_suffix(value: &str) -> (r: String)
    ensures
        r@ == spec_strip_edition(value@),
{
    let v = chars_of(value);
    let r = strip_edition_chars(&v);
    string_from_chars(&r)
}

/// The title two album copies are matched by: the edition suffix removed,
/// then the name key.
pub fn logical_title(value: &str) -> (r: String)
    ensures
        r@ == spec_name_key(spec_strip_edition(value@)),
{
    let stripped = strip_edition_suffix(value);
    name_key(stripped.as_str())
}

// ---------------------------------------------------------------------------
// The edition descriptor
// ---------------------------------------------------------------------------

/// White space, dashes and brackets: what is stripped around a descriptor.
pub open spec fn is_edge_char(c: char) -> bool {
    is_ws(c) || c == '-' || c == '\u{2013}' || c == '\u{2014}' || c == '(' || c == ')' || c == '['
        || c == ']' || c == '{' || c == '}'
}

pub open spec fn strip_edges_start(s: Seq<char>) -> Seq<char>
    decreases s.len(),
{
    if s.len() > 0 && is_edge_char(s[0]) {
        strip_edges_start(s.drop_first())
    } else {
        s
    }
}

pub open spec fn strip_edges_end(s: Seq<char>) -> Seq<char>
    decreases s.len(),
{
    if s.len() > 0 && is_edge_char(s.last()) {
        strip_edges_end(s.drop_last())
    } else {
        s
    }
}

fn is_edge(c: char) -> (r: bool)
    ensures
        r == is_edge_char(c),
{
    is_whitespace(c) || c == '-' || c == '\u{2013}' || c == '\u{2014}' || c == '(' || c == ')' || c
        == '[' || c == ']' || c == '{' || c == '}'
}

fn strip_edges(v: &Vec<char>) -> (r: Vec<char>)
    ensures
        r@ == strip_edges_end(strip_edges_start(v@)),
{
    let mut i: usize = 0;
    proof {
        assert(v@.skip(0) =~= v@);
    }
    while i < v.len() && is_edge(v[i])
        invariant
            0 <= i <= v@.len(),
            strip_edges_start(v@) == strip_edges_start(v@.skip(i as int)),
        decreases v@.len() - i,
    {
        proof {
            assert(v@.skip(i as int).drop_first() =~= v@.skip(i + 1));
        }
        i = i + 1;
    }
    proof {
        if i < v@.len() {
            assert(v@.skip(i as int)[0] == v@[i as int]);
        }
    }
    let mut j: usize = v.len();
    proof {
        assert(v@.subrange(i as int, v@.len() as int) =~= v@.skip(i as int));
    }
    while j > i && is_edge(v[j - 1])
        invariant
            i <= j <= v@.len(),
            strip_edges_end(v@.skip(i as int)) == strip_edges_end(v@.subrange(i as int, j as int)),
        decreases j,
    {
        proof {
            assert(v@.subrange(i as int, j as int).drop_last() =~= v@.subrange(i as int, j - 1));
            assert(v@.subrange(i as int, j as int).last() == v@[j - 1]);
        }
        j = j - 1;
    }
    proof {
        if j > i {
            assert(v@.subrange(i as int, j as int).last() == v@[j - 1]);
        }
    }
    let mut r: Vec<char> = Vec::new();
    let mut k: usize = i;
    while k < j
        invariant
            i <= k <= j <= v@.len(),
            r@ == v@.subrange(i as int, k as int),
        decreases j - k,
    {
        r.push(v[k]);
        proof {
            assert(v@.subrange(i as int, k + 1) =~= v@.subrange(i as int, k as int).push(v@[k as int]));
        }
        k = k + 1;
    }
    r
}

/// `edition_descriptor`: the edition suffix that `strip_edition_suffix`
/// removes from the trimmed value, without the dashes, brackets and white
/// space around it; empty when nothing was removed.
pub open spec fn spec_edition_descriptor(value: Seq<char>) -> Seq<char> {
    let t = trim(value);
    let st = trim(spec_strip_edition(t));
    if st.len() == t.len() {
        Seq::empty()
    } else {
        trim(strip_edges_end(strip_edges_start(t.skip(st.len() as int))))
    }
}

proof fn lemma_strip_edition_shortens(v: Seq<char>)
    ensures
        spec_strip_edition(v).len() <= v.len(),
{
    lemma_trim_shortens(v);
    let o = marked_opener_below(v, v.len() as int);
    lemma_opener_in_range(v, v.len() as int);
    if o >= 0 {
        lemma_trim_shortens(v.take(o));
    } else {
        let hy = seq![' ', '-', ' '];
        let en = seq![' ', '\u{2013}', ' '];
        let em = seq![' ', '\u{2014}', ' '];
        lemma_occurrence_in_range(v, hy, (v.len() + 1) as int);
        lemma_occurrence_in_range(v, en, (v.len() + 1) as int);
        lemma_occurrence_in_range(v, em, (v.len() + 1) as int);
        lemma_trim_shortens(v.take(last_occurrence(v, hy)));
        lemma_trim_shortens(v.take(last_occurrence(v, en)));
        lemma_trim_shortens(v.take(last_occurrence(v, em)));
    }
}

proof fn lemma_opener_in_range(v: Seq<char>, j: int)
    requires
        0 <= j <= v.len(),
    ensures
        -1 <= marked_opener_below(v, j) < j,
    decreases j,
{
    if j > 0 {
        lemma_opener_in_range(v, j - 1);
    }
}

proof fn lemma_occurrence_in_range(v: Seq<char>, sep: Seq<char>, j: int)
    requires
        0 <= j,
    ensures
        -1 <= last_occurrence_below(v, sep, j) < j,
        last_occurrence_below(v, sep, j) >= 0 ==> occurs_at(v, sep, last_occurrence_below(v, sep, j)),
    decreases j,
{
    if j > 0 {
        lemma_occurrence_in_range(v, sep, j - 1);
    }
}

pub fn edition_descriptor(value: &str) -> (r: String)
    ensures
        r@ == spec_edition_descriptor(value@),
{
    let t = trimmed_chars(value);
    let s1 = strip_edition_chars(&t);
    let s1s = string_from_chars(&s1);
    let st = trimmed_chars(s1s.as_str());
    proof {
        lemma_strip_edition_shortens(t@);
        lemma_trim_shortens(s1@);
    }
    if st.len() == t.len() {
        return String::new();
    }
    let tail = tail_from(&t, st.len());
    let edged = strip_edges(&tail);
    let es = string_from_chars(&edged);
    let out = trimmed_chars(es.as_str());
    string_from_chars(&out)
}

// ---------------------------------------------------------------------------
// Artist portraits
// ---------------------------------------------------------------------------

/// The Discogs name with a numeric disambiguation (" (2)") removed, then the
/// name key: the suffix marks identity, not a different name.
pub open spec fn spec_discogs_key(value: Seq<char>) -> Seq<char> {
    let v = trim(value);
    let p = v.drop_last();
    let k = last_occurrence(p, seq![' ', '(']);
    if v.len() > 0 && v.last() == ')' && k >= 0 && all_digits(p.skip(k + 2)) {
        spec_name_key(p.take(k))
    } else {
        spec_name_key(v)
    }
}

pub fn normalize_discogs_artist(value: &str) -> (r: String)
    ensures
        r@ == spec_discogs_key(value@),
{
    let v = trimmed_chars(value);
    let n = v.len();
    if n > 0 && v[n - 1] == ')' {
        let mut p: Vec<char> = Vec::new();
        let mut i: usize = 0;
        while i < n - 1
            invariant
                n == v@.len(),
                n > 0,
                0 <= i <= n - 1,
                p@ == v@.take(i as int),
            decreases n - 1 - i,
        {
            p.push(v[i]);
            proof {
                assert(v@.take(i + 1) =~= v@.take(i as int).push(v@[i as int]));
            }
            i = i + 1;
        }
        proof {
            assert(p@ =~= v@.drop_last());
        }
        let sep: Vec<char> = vec![' ', '('];
        proof {
            assert(sep@ =~= seq![' ', '(']);
        }
        if let Some(k) = find_last(&p, &sep) {
            let suffix = tail_from(&p, k + 2);
            let mut all = true;
            let mut m: usize = 0;
            while m < suffix.len()
                invariant
                    0 <= m <= suffix@.len(),
                    all == (forall|q: int| 0 <= q < m ==> is_digit(#[trigger] suffix@[q])),
                decreases suffix@.len() - m,
            {
                let c = suffix[m];
                if !('0' <= c && c <= '9') {
                    all = false;
                }
                m = m + 1;
            }
            if all {
                let name = prefix_trim_end_raw(&p, k);
                let ns = string_from_chars(&name);
                return name_key(ns.as_str());
            }
        }
    }
    let vs = string_from_chars(&v);
    name_key(vs.as_str())
}

fn prefix_trim_end_raw(v: &Vec<char>, n: usize) -> (r: Vec<char>)
    requires
        n <= v@.len(),
    ensures
        r@ == v@.take(n as int),
{
    let mut p: Vec<char> = Vec::new();
    let mut i: usize = 0;
    while i < n
        invariant
            n <= v@.len(),
            0 <= i <= n,
            p@ == v@.take(i as int),
        decreases n - i,
    {
        p.push(v[i]);
        proof {
            assert(v@.take(i + 1) =~= v@.take(i as int).push(v@[i as int]));
        }
        i = i + 1;
    }
    p
}

/// The Last.fm placeholder portrait's image hash.
pub const LASTFM_PLACEHOLDER_HASH: &'static str = "2a96cbd8b46e442fc41c2b86b821562f";

/// A portrait URL worth keeping: not empty, and not a provider placeholder
/// (Discogs' spacer, Last.fm's star).
pub open spec fn spec_useful_url(url: Seq<char>) -> bool {
    let t = trim(url);
    t.len() > 0 && !contains_seq(t, "spacer.gif"@) && !contains_seq(
        t,
        "2a96cbd8b46e442fc41c2b86b821562f"@,
    )
}

pub fn useful_url(url: &str) -> (r: bool)
    ensures
        r == spec_useful_url(url@),
{
    let t = trimmed_chars(url);
    if t.len() == 0 {
        return false;
    }
    let spacer = chars_of("spacer.gif");
    let hash = chars_of("2a96cbd8b46e442fc41c2b86b821562f");
    !contains_chars(&t, &spacer) && !contains_chars(&t, &hash)
}

// ---------------------------------------------------------------------------
// The artist rail
// ---------------------------------------------------------------------------

pub open spec fn ascii_upper(c: char) -> char {
    if 'a' <= c && c <= 'z' {
        ((c as u32) - 32) as char
    } else {
        c
    }
}

/// The rail bucket of an artist key: its first character upper-cased when
/// that is an ASCII letter, else "#".
pub open spec fn spec_artist_initial(key: Seq<char>) -> Seq<char> {
    let c = if key.len() == 0 {
        '#'
    } else {
        ascii_upper(key[0])
    };
    if 'A' <= c && c <= 'Z' {
        seq![c]
    } else {
        "#"@
    }
}

pub fn artist_initial(key: &str) -> (r: String)
    ensures
        r@ == spec_artist_initial(key@),
{
    let v = chars_of(key);
    let c = if v.len() == 0 {
        '#'
    } else if 'a' <= v[0] && v[0] <= 'z' {
        ((v[0] as u32 - 32) as u8) as char
    } else {
        v[0]
    };
    if 'A' <= c && c <= 'Z' {
        let mut out: Vec<char> = Vec::new();
        out.push(c);
        string_from_chars(&out)
    } else {
        proof {
            reveal_strlit("#");
        }
        String::from_str("#")
    }
}

/// The edition words: a bracket or separator tail that mentions one of them,
/// once lower-cased, is an edition suffix.
pub open spec fn edition_word(m: Seq<char>) -> bool {
    m == "remaster"@ || m == "deluxe"@ || m == "expanded"@ || m == "anniversary"@ || m == "edition"@
        || m == "reissue"@ || m == "re-release"@ || m == "mix"@ || m == "version"@ || m == "mono"@
        || m == "stereo"@ || m == "sacd"@ || m == "bonus"@ || m == "legacy"@ || m == "collector"@
}

proof fn lemma_last_opener(v: Seq<char>, o: int, j: int)
    requires
        0 <= o < j <= v.len(),
        is_opener(v[o]),
        marked(v.skip(o + 1)),
        forall|k: int| o < k < v.len() ==> !is_opener(#[trigger] v[k]),
    ensures
        marked_opener_below(v, j) == o,
    decreases j,
{
    if j > o + 1 {
        lemma_last_opener(v, o, j - 1);
    }
}

/// A title that ends in a bracket whose tail mentions an edition word, once
/// lower-cased, loses that bracket and the white space before it: "OK
/// Computer (2009 Reissue)" is "OK Computer".
pub proof fn lemma_edition_bracket_is_stripped(v: Seq<char>, o: int, m: Seq<char>)
    requires
        0 <= o < v.len(),
        is_opener(v[o]),
        forall|k: int| o < k < v.len() ==> !is_opener(#[trigger] v[k]),
        edition_word(m),
        contains_seq(lowercase(v.skip(o + 1)), m),
    ensures
        spec_strip_edition(v) == trim_end(v.take(o)),
{
    lemma_last_opener(v, o, v.len() as int);
}

/// A title that ends in " - " followed by a tail mentioning an edition word,
/// and has no bracket, loses that separator and the white space before it:
/// "Abbey Road - 2019 Mix" is "Abbey Road".
pub proof fn lemma_edition_dash_is_stripped(v: Seq<char>, i: int, m: Seq<char>)
    requires
        forall|k: int| 0 <= k < v.len() ==> !is_opener(#[trigger] v[k]),
        occurs_at(v, seq![' ', '-', ' '], i),
        forall|k: int| i < k <= v.len() ==> !occurs_at(v, seq![' ', '-', ' '], k),
        edition_word(m),
        contains_seq(lowercase(v.skip(i + 3)), m),
    ensures
        spec_strip_edition(v) == trim_end(v.take(i)),
{
    let hy = seq![' ', '-', ' '];
    lemma_no_opener(v, v.len() as int);
    lemma_last_dash(v, hy, i, (v.len() + 1) as int);
}

proof fn lemma_no_opener(v: Seq<char>, j: int)
    requires
        0 <= j <= v.len(),
        forall|k: int| 0 <= k < v.len() ==> !is_opener(#[trigger] v[k]),
    ensures
        marked_opener_below(v, j) == -1,
    decreases j,
{
    if j > 0 {
        lemma_no_opener(v, j - 1);
    }
}

proof fn lemma_last_dash(v: Seq<char>, sep: Seq<char>, i: int, j: int)
    requires
        0 <= i < j,
        occurs_at(v, sep, i),
        forall|k: int| i < k <= v.len() ==> !occurs_at(v, sep, k),
        j <= v.len() + 1,
    ensures
        last_occurrence_below(v, sep, j) == i,
    decreases j,
{
    if j > i + 1 {
        assert(!occurs_at(v, sep, j - 1));
        lemma_last_dash(v, sep, i, j - 1);
    }
}

/// A title with no bracket and no dash separator is only trimmed.
pub proof fn lemma_plain_titles_are_only_trimmed(v: Seq<char>)
    requires
        forall|k: int| 0 <= k < v.len() ==> !is_opener(#[trigger] v[k]),
        !contains_seq(v, seq![' ', '-', ' ']),
        !contains_seq(v, seq![' ', '\u{2013}', ' ']),
        !contains_seq(v, seq![' ', '\u{2014}', ' ']),
    ensures
        spec_strip_edition(v) == trim(v),
{
    lemma_no_opener(v, v.len() as int);
    lemma_occurrence_in_range(v, seq![' ', '-', ' '], (v.len() + 1) as int);
    lemma_occurrence_in_range(v, seq![' ', '\u{2013}', ' '], (v.len() + 1) as int);
    lemma_occurrence_in_range(v, seq![' ', '\u{2014}', ' '], (v.len() + 1) as int);
}

} // verus!
