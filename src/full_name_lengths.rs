//! The table of full names whose split into name, version and platform is
//! ambiguous, with the character lengths of the name and the version.
use vstd::prelude::*;
use vstd::hash_map::StringHashMap;
use std::io::Read;
use flate2::bufread::GzDecoder;
use crate::grammar::{chars_of, pos_ranges, ranges_in, sep_ranges, sep_ranges_from, split_ranges};
use crate::platform::{opt_view, piece};

verus! {

/// The text that the gzip stream `b` holds, if it is a valid stream of
/// UTF-8 text.
pub uninterp spec fn gunzip_text(b: Seq<u8>) -> Option<Seq<char>>;

/// Relies on flate2's `bufread::GzDecoder`, read to a string: the text the
/// gzip stream holds, or `None` when it is not valid gzip or not UTF-8.
#[verifier::external_body]
fn gunzip_to_string(b: &[u8]) -> (r: Option<String>)
    ensures
        opt_view(r) == gunzip_text(b@),
{
    let mut buf = String::new();
    match GzDecoder::new(b).read_to_string(&mut buf) {
        Ok(_) => Some(buf),
        Err(_) => None,
    }
}

pub open spec fn is_ascii_space(c: char) -> bool {
    c == ' ' || c == '\t' || c == '\n' || c == '\x0b' || c == '\x0c' || c == '\r'
}

/// `t` without leading and trailing ASCII whitespace.
pub open spec fn trim(t: Seq<char>) -> Seq<char>
    decreases t.len(),
{
    if t.len() > 0 && is_ascii_space(t[0]) {
        trim(t.drop_first())
    } else if t.len() > 0 && is_ascii_space(t.last()) {
        trim(t.drop_last())
    } else {
        t
    }
}

pub open spec fn digit_value(c: char) -> nat {
    (c as u32 - '0' as u32) as nat
}

pub open spec fn digits_value(d: Seq<char>) -> nat
    decreases d.len(),
{
    if d.len() == 0 {
        0
    } else {
        digits_value(d.drop_last()) * 10 + digit_value(d.last())
    }
}

/// A decimal `u8` with an optional `+` sign, as Rust's `u8::from_str`
/// reads it.
pub open spec fn parse_u8(s: Seq<char>) -> Option<u8> {
    parse_unsigned(
        if s.len() > 0 && s[0] == '+' {
            s.drop_first()
        } else {
            s
        },
    )
}

/// One or more decimal digits whose value fits a `u8`.
pub open spec fn parse_unsigned(d: Seq<char>) -> Option<u8> {
    if d.len() > 0 && (forall|i: int| 0 <= i < d.len() ==> '0' <= #[trigger] d[i] && d[i] <= '9')
        && digits_value(d) <= 255 {
        Some(digits_value(d) as u8)
    } else {
        None
    }
}

/// One table row: `name,name_length,version_length`.
pub open spec fn row_entry(line: Seq<char>) -> Option<(Seq<char>, u8, u8)> {
    let t = trim(line);
    let f = sep_ranges(t, ',');
    if f.len() != 3 {
        None
    } else {
        match (parse_u8(t.subrange(f[1].0, f[1].1)), parse_u8(t.subrange(f[2].0, f[2].1))) {
            (Some(a), Some(b)) => Some((t.subrange(f[0].0, f[0].1), a, b)),
            _ => None,
        }
    }
}

/// The lengths fit the name: a non-empty name, a dash, a non-empty version.
pub open spec fn lengths_fit(name: Seq<char>, l: (u8, u8)) -> bool {
    l.0 >= 1 && l.1 >= 1 && l.0 + 1 + l.1 <= name.len()
}

/// The lines of a text: split on `\n`, with no empty last line after a
/// final newline.
pub open spec fn lines(s: Seq<char>) -> Seq<(int, int)> {
    let r = sep_ranges(s, '\n');
    if r.last().0 == r.last().1 {
        r.drop_last()
    } else {
        r
    }
}

/// The table that the first `n` lines make; the first line is a header.
pub open spec fn rows_table(s: Seq<char>, rows: Seq<(int, int)>, n: int) -> Option<Map<Seq<char>, (u8, u8)>>
    decreases n,
{
    if n <= 1 {
        Some(Map::empty())
    } else {
        match rows_table(s, rows, n - 1) {
            Some(m) => match row_entry(s.subrange(rows[n - 1].0, rows[n - 1].1)) {
                Some(e) => if lengths_fit(e.0, (e.1, e.2)) {
                    Some(m.insert(e.0, (e.1, e.2)))
                } else {
                    None
                },
                None => None,
            },
            None => None,
        }
    }
}

/// The table a CSV text describes, or `None` when a row is malformed or its
/// lengths do not fit its name.
pub open spec fn csv_table(s: Seq<char>) -> Option<Map<Seq<char>, (u8, u8)>> {
    rows_table(s, lines(s), lines(s).len() as int)
}

/// Full name to the lengths of its name and version.
pub struct FullNameLengths {
    map: StringHashMap<(u8, u8)>,
}

impl View for FullNameLengths {
    type V = Map<Seq<char>, (u8, u8)>;

    closed spec fn view(&self) -> Map<Seq<char>, (u8, u8)> {
        self.map@
    }
}

pub open spec fn table_fits(m: Map<Seq<char>, (u8, u8)>) -> bool {
    forall|k: Seq<char>| #[trigger] m.contains_key(k) ==> lengths_fit(k, m[k])
}

fn trim_range(c: &Vec<char>) -> (r: (usize, usize))
    ensures
        r.0 <= r.1 <= c@.len(),
        c@.subrange(r.0 as int, r.1 as int) == trim(c@),
{
    let mut lo: usize = 0;
    let mut hi: usize = c.len();
    assert(c@.subrange(0, c@.len() as int) =~= c@);
    while lo < hi && is_space(c[lo])
        invariant
            lo <= hi <= c@.len(),
            trim(c@.subrange(lo as int, hi as int)) == trim(c@),
        decreases hi - lo,
    {
        proof {
            assert(c@.subrange(lo as int, hi as int).drop_first() =~= c@.subrange(lo + 1, hi as int));
        }
        lo = lo + 1;
    }
    while lo < hi && is_space(c[hi - 1])
        invariant
            lo <= hi <= c@.len(),
            trim(c@.subrange(lo as int, hi as int)) == trim(c@),
            lo < hi ==> !is_ascii_space(c@[lo as int]),
        decreases hi - lo,
    {
        proof {
            let t = c@.subrange(lo as int, hi as int);
            assert(t[0] == c@[lo as int]);
            assert(t.drop_last() =~= c@.subrange(lo as int, hi - 1));
        }
        hi = hi - 1;
    }
    proof {
        let t = c@.subrange(lo as int, hi as int);
        if t.len() > 0 {
            assert(t[0] == c@[lo as int]);
            assert(t.last() == c@[hi - 1]);
        }
    }
    (lo, hi)
}

fn is_space(c: char) -> (r: bool)
    ensures
        r == is_ascii_space(c),
{
    c == ' ' || c == '\t' || c == '\n' || c == '\x0b' || c == '\x0c' || c == '\r'
}

proof fn lemma_digits_value_grows(d: Seq<char>, c: char)
    ensures
        digits_value(d.push(c)) == digits_value(d) * 10 + digit_value(c),
{
    assert(d.push(c).drop_last() =~= d);
}

fn exec_parse_u8(c: &Vec<char>, from: usize, to: usize) -> (r: Option<u8>)
    requires
        from <= to <= c@.len(),
    ensures
        r == parse_u8(c@.subrange(from as int, to as int)),
{
    let ghost s = c@.subrange(from as int, to as int);
    let start = if from < to && c[from] == '+' {
        from + 1
    } else {
        from
    };
    let ghost d = c@.subrange(start as int, to as int);
    proof {
        if from < to {
            assert(s[0] == c@[from as int]);
        }
        if from < to && c@[from as int] == '+' {
            assert(s.drop_first() =~= d);
        } else {
            assert(s =~= d);
        }
    }
    if start == to {
        assert(parse_u8(s) is None);
        return None;
    }
    let mut val: u32 = 0;
    let mut over = false;
    let mut i = start;
    while i < to
        invariant
            start <= i <= to <= c@.len(),
            d == c@.subrange(start as int, to as int),
            parse_u8(s) == parse_unsigned(d),
            s == c@.subrange(from as int, to as int),
            forall|j: int| start <= j < i ==> '0' <= #[trigger] c@[j] && c@[j] <= '9',
            !over ==> val as nat == digits_value(c@.subrange(start as int, i as int)) && val <= 255,
            over ==> digits_value(c@.subrange(start as int, i as int)) > 255,
        decreases to - i,
    {
        let ch = c[i];
        if !('0' <= ch && ch <= '9') {
            proof {
                assert(d[i - start] == ch);
                assert(parse_u8(s) is None);
            }
            return None;
        }
        proof {
            assert(c@.subrange(start as int, i + 1) =~= c@.subrange(start as int, i as int).push(ch));
            lemma_digits_value_grows(c@.subrange(start as int, i as int), ch);
        }
        proof {
            let dv = digits_value(c@.subrange(start as int, i as int));
            assert(dv * 10 >= dv) by (nonlinear_arith);
        }
        if !over {
            let next = val * 10 + (ch as u32 - '0' as u32);
            if next > 255 {
                over = true;
            } else {
                val = next;
            }
        }
        i = i + 1;
    }
    proof {
        assert(c@.subrange(start as int, to as int) =~= d);
        assert forall|j: int| 0 <= j < d.len() implies '0' <= #[trigger] d[j] && d[j] <= '9' by {
            assert(d[j] == c@[start + j]);
        }
    }
    if over {
        assert(parse_u8(s) is None);
        None
    } else {
        assert(parse_u8(s) == Some(val as u8));
        Some(val as u8)
    }
}

/// Parses one row, `name,name_length,version_length`.
fn exec_row_entry(line: &str) -> (r: Option<(String, u8, u8)>)
    ensures
        match r {
            Some(e) => row_entry(line@) == Some((e.0@, e.1, e.2)),
            None => row_entry(line@) is None,
        },
{
    let c = chars_of(line);
    let (lo, hi) = trim_range(&c);
    let t = piece(line, lo, hi);
    let tc = chars_of(t.as_str());
    let f = split_ranges(&tc, ',');
    proof {
        assert(pos_ranges(f@).len() == f@.len());
    }
    if f.len() != 3 {
        return None;
    }
    proof {
        assert(pos_ranges(f@)[1] == (f@[1].0 as int, f@[1].1 as int));
        assert(pos_ranges(f@)[2] == (f@[2].0 as int, f@[2].1 as int));
        assert(pos_ranges(f@)[0] == (f@[0].0 as int, f@[0].1 as int));
    }
    let a = exec_parse_u8(&tc, f[1].0, f[1].1);
    let b = exec_parse_u8(&tc, f[2].0, f[2].1);
    match (a, b) {
        (Some(a), Some(b)) => Some((piece(t.as_str(), f[0].0, f[0].1), a, b)),
        _ => None,
    }
}

impl FullNameLengths {
    /// Every entry's lengths fit its name.
    pub open spec fn wf(&self) -> bool {
        table_fits(self@)
    }

    /// Reads the table from its CSV text: a header line, then one
    /// `name,name_length,version_length` row per line (see `csv_table`).
    pub fn from_csv(text: &str) -> (r: Option<FullNameLengths>)
        ensures
            match r {
                Some(t) => csv_table(text@) == Some(t@) && t.wf(),
                None => csv_table(text@) is None,
            },
    {
        let c = chars_of(text);
        let mut rows = split_ranges(&c, '\n');
        proof {
            assert(pos_ranges(rows@).len() == rows@.len());
            assert(rows@.len() > 0) by {
                assert(sep_ranges(c@, '\n').len() > 0) by {
                    lemma_sep_ranges_nonempty(c@, '\n', 0, 0);
                }
            }
            assert(pos_ranges(rows@).last() == (rows@.last().0 as int, rows@.last().1 as int));
        }
        let last = rows[rows.len() - 1];
        if last.0 == last.1 {
            let ghost before = rows@;
            rows.pop();
            proof {
                assert(pos_ranges(rows@) =~= pos_ranges(before).drop_last());
            }
        }
        let n = rows.len();
        let mut map: StringHashMap<(u8, u8)> = StringHashMap::new();
        let mut i: usize = 1;
        proof {
            assert(pos_ranges(rows@) == lines(c@));
        }
        if n == 0 {
            proof {
                assert(lines(text@).len() == 0);
                assert(csv_table(text@) == Some(map@));
                assert(table_fits(map@));
            }
            return Some(FullNameLengths { map });
        }
        while i < n
            invariant
                1 <= i <= n,
                n == rows@.len(),
                c@ == text@,
                pos_ranges(rows@) == lines(text@),
                ranges_in(rows@, c@.len() as int),
                rows_table(text@, lines(text@), i as int) == Some(map@),
                table_fits(map@),
            decreases n - i,
        {
            let (a, b) = rows[i];
            proof {
                assert(pos_ranges(rows@)[i as int] == (a as int, b as int));
            }
            let line = piece(text, a, b);
            match exec_row_entry(line.as_str()) {
                Some((name, nl, vl)) => {
                    if nl >= 1 && vl >= 1 && (nl as usize) + 1 + (vl as usize) <= name.as_str().unicode_len() {
                        let ghost before = map@;
                        map.insert(name, (nl, vl));
                        proof {
                            assert(lines(text@)[i as int] == (a as int, b as int));
                            assert(rows_table(text@, lines(text@), i + 1) == Some(before.insert(name@, (nl, vl))));
                        }
                    } else {
                        proof {
                            assert(lines(text@)[i as int] == (a as int, b as int));
                            lemma_rows_table_stays_none(text@, lines(text@), i + 1, n as int);
                        }
                        return None;
                    }
                },
                None => {
                    proof {
                        assert(lines(text@)[i as int] == (a as int, b as int));
                        lemma_rows_table_stays_none(text@, lines(text@), i + 1, n as int);
                    }
                    return None;
                },
            }
            i = i + 1;
        }
        proof {
            assert(lines(text@).len() == n);
            assert(csv_table(text@) == Some(map@));
            assert(table_fits(map@));
        }
        let t = FullNameLengths { map };
        assert(t@ == map@);
        assert(t.wf());
        Some(t)
    }

    /// Reads the table from its gzip-compressed CSV text.
    pub fn load(gz: &[u8]) -> (r: Option<FullNameLengths>)
        ensures
            match gunzip_text(gz@) {
                Some(text) => match r {
                    Some(t) => csv_table(text) == Some(t@) && t.wf(),
                    None => csv_table(text) is None,
                },
                None => r is None,
            },
    {
        match gunzip_to_string(gz) {
            Some(text) => FullNameLengths::from_csv(text.as_str()),
            None => None,
        }
    }

    /// The lengths stored for `full_name`, if it is in the table.
    pub fn get(&self, full_name: &str) -> (r: Option<(u8, u8)>)
        ensures
            match r {
                Some(l) => self@.contains_key(full_name@) && self@[full_name@] == l,
                None => !self@.contains_key(full_name@),
            },
    {
        match self.map.get(full_name) {
            Some(l) => Some(*l),
            None => None,
        }
    }

    pub fn is_empty(&self) -> (r: bool)
        ensures
            r == self@.is_empty(),
    {
        self.map.is_empty()
    }
}

proof fn lemma_rows_table_stays_none(s: Seq<char>, rows: Seq<(int, int)>, k: int, m: int)
    requires
        1 <= k <= m,
        rows_table(s, rows, k) is None,
    ensures
        rows_table(s, rows, m) is None,
    decreases m - k,
{
    if k < m {
        lemma_rows_table_stays_none(s, rows, k + 1, m);
    }
}

proof fn lemma_sep_ranges_nonempty(s: Seq<char>, sep: char, start: int, i: int)
    ensures
        sep_ranges_from(s, sep, start, i).len() > 0,
    decreases s.len() - i,
{
    if i < s.len() {
        if s[i] == sep {
            lemma_sep_ranges_nonempty(s, sep, i + 1, i + 1);
        } else {
            lemma_sep_ranges_nonempty(s, sep, start, i + 1);
        }
    }
}

} // verus!
