//! Parsing the hosts file: one `host,ip` pair per line, with `#` comment
//! lines and blank lines skipped, a line-numbered message for a malformed
//! line, and a refusal of files that name no host at all.

use vstd::prelude::*;

use crate::decimal::dec_digits;
use crate::decimal::u64_to_string;
use crate::history::Host;
use crate::history::HostV;

verus! {

/// Whitespace trimmed from around fields and line ends.
pub open spec fn spec_is_space(c: char) -> bool {
    c == ' ' || c == '\t' || c == '\r'
}

fn is_space(c: char) -> (r: bool)
    ensures
        r == spec_is_space(c),
{
    c == ' ' || c == '\t' || c == '\r'
}

/// Index of the first newline at or after `i`, or the end of the text.
pub open spec fn next_newline(s: Seq<char>, i: int) -> int
    decreases s.len() - i,
{
    if i >= s.len() {
        s.len() as int
    } else if s[i] == '\n' {
        i
    } else {
        next_newline(s, i + 1)
    }
}

/// `next_newline` lies between its cursor and the end of the text.
proof fn lemma_next_newline_bounds(s: Seq<char>, i: int)
    requires
        i <= s.len(),
    ensures
        i <= next_newline(s, i) <= s.len(),
    decreases s.len() - i,
{
    if i < s.len() && s[i] != '\n' {
        lemma_next_newline_bounds(s, i + 1);
    }
}

/// `next_newline` is exactly the first newline-or-end after the cursor.
proof fn lemma_next_newline_at(s: Seq<char>, i: int, j: int)
    requires
        0 <= i <= j <= s.len(),
        forall|k: int| i <= k < j ==> s[k] != '\n',
        j == s.len() || s[j] == '\n',
    ensures
        next_newline(s, i) == j,
    decreases j - i,
{
    if i < j {
        lemma_next_newline_at(s, i + 1, j);
    }
}

/// The text with surrounding whitespace removed.
pub open spec fn trim_spec(s: Seq<char>) -> Seq<char>
    decreases s.len(),
{
    if s.len() > 0 && spec_is_space(s.first()) {
        trim_spec(s.drop_first())
    } else if s.len() > 0 && spec_is_space(s.last()) {
        trim_spec(s.drop_last())
    } else {
        s
    }
}

/// Trimming keeps exactly the range between the first and last
/// non-whitespace characters.
proof fn lemma_trim_range(s: Seq<char>, a: int, b: int)
    requires
        0 <= a <= b <= s.len(),
        forall|k: int| 0 <= k < a ==> spec_is_space(s[k]),
        forall|k: int| b <= k < s.len() ==> spec_is_space(s[k]),
        a == b || (!spec_is_space(s[a]) && !spec_is_space(s[b - 1])),
    ensures
        trim_spec(s) == s.subrange(a, b),
    decreases s.len(),
{
    if s.len() == 0 {
        assert(s.subrange(a, b) =~= s);
    } else if spec_is_space(s.first()) {
        assert(forall|k: int| 0 <= k < s.drop_first().len() ==> s.drop_first()[k] == s[k + 1]);
        if a == b {
            lemma_trim_range(s.drop_first(), if a > 0 { a - 1 } else { 0 }, if b > 0 { b - 1 } else { 0 });
            assert(s.subrange(a, b) =~= s.drop_first().subrange(
                if a > 0 { a - 1 } else { 0 },
                if b > 0 { b - 1 } else { 0 },
            ));
        } else {
            assert(a > 0);
            lemma_trim_range(s.drop_first(), a - 1, b - 1);
            assert(s.subrange(a, b) =~= s.drop_first().subrange(a - 1, b - 1));
        }
    } else if spec_is_space(s.last()) {
        assert(a < b);
        assert(b < s.len());
        assert(forall|k: int| 0 <= k < s.drop_last().len() ==> s.drop_last()[k] == s[k]);
        lemma_trim_range(s.drop_last(), a, b);
        assert(s.subrange(a, b) =~= s.drop_last().subrange(a, b));
    } else {
        assert(a == 0 && b == s.len());
        assert(s.subrange(a, b) =~= s);
    }
}

/// How many times the character occurs in the text.
pub open spec fn count_char(s: Seq<char>, c: char) -> int
    decreases s.len(),
{
    if s.len() == 0 {
        0
    } else {
        count_char(s.drop_last(), c) + if s.last() == c {
            1int
        } else {
            0int
        }
    }
}

/// Index of the first occurrence of the character, if any.
pub open spec fn find_char(s: Seq<char>, c: char) -> Option<int>
    decreases s.len(),
{
    if s.len() == 0 {
        None
    } else if s.first() == c {
        Some(0int)
    } else {
        match find_char(s.drop_first(), c) {
            Some(j) => Some(j + 1),
            None => None,
        }
    }
}

/// `find_char` returns exactly the first occurrence.
proof fn lemma_find_char_first(s: Seq<char>, c: char, j: int)
    requires
        0 <= j < s.len(),
        s[j] == c,
        forall|k: int| 0 <= k < j ==> s[k] != c,
    ensures
        find_char(s, c) == Some(j),
    decreases s.len(),
{
    if j > 0 {
        assert(s.drop_first()[j - 1] == s[j]);
        assert(forall|k: int| 0 <= k < j - 1 ==> s.drop_first()[k] == s[k + 1]);
        lemma_find_char_first(s.drop_first(), c, j - 1);
    }
}

/// The message for a line that is not a `host,ip` pair.
pub open spec fn invalid_format_msg(line: int) -> Seq<char> {
    "Invalid format at line "@ + dec_digits(line) + ": expected 'host,ip'"@
}

/// The parse of the text from character `i` on, where `line` lines were
/// already consumed: each remaining line is trimmed; blank and `#` lines
/// are skipped; a line without exactly one comma stops the parse with a
/// line-numbered error; otherwise the two trimmed fields name a host.
pub open spec fn parse_from(s: Seq<char>, i: int, line: int) -> Result<Seq<HostV>, Seq<char>>
    decreases s.len() + 1 - i,
    via parse_from_decreases
{
    if i >= s.len() {
        Ok(Seq::empty())
    } else {
        let j = next_newline(s, i);
        let t = trim_spec(s.subrange(i, j));
        let rest = parse_from(s, j + 1, line + 1);
        if t.len() == 0 || t[0] == '#' {
            rest
        } else if count_char(t, ',') != 1 {
            Err(invalid_format_msg(line + 1))
        } else {
            let p = find_char(t, ',')->0;
            let h = HostV { name: trim_spec(t.take(p)), ip: trim_spec(t.skip(p + 1)) };
            match rest {
                Ok(hs) => Ok(seq![h] + hs),
                Err(e) => Err(e),
            }
        }
    }
}

#[via_fn]
proof fn parse_from_decreases(s: Seq<char>, i: int, line: int) {
    if i < s.len() {
        lemma_next_newline_bounds(s, i);
    }
}

/// Char index where the line starting at `i` ends.
fn line_end(contents: &str, i: usize) -> (j: usize)
    requires
        i <= contents@.len(),
    ensures
        i <= j <= contents@.len(),
        j as int == next_newline(contents@, i as int),
{
    let n = contents.unicode_len();
    let mut j: usize = i;
    while j < n && contents.get_char(j) != '\n'
        invariant
            contents@.len() == n,
            i <= j <= n,
            forall|k: int| i <= k < j ==> contents@[k] != '\n',
        decreases n - j,
    {
        j += 1;
    }
    proof {
        lemma_next_newline_at(contents@, i as int, j as int);
    }
    j
}

/// Shrink `[lo, hi)` to the whitespace-free core of its text.
fn trim_range(contents: &str, lo: usize, hi: usize) -> (r: (usize, usize))
    requires
        lo <= hi <= contents@.len(),
    ensures
        lo <= r.0 <= r.1 <= hi,
        trim_spec(contents@.subrange(lo as int, hi as int)) == contents@.subrange(
            r.0 as int,
            r.1 as int,
        ),
{
    let mut a: usize = lo;
    while a < hi && is_space(contents.get_char(a))
        invariant
            lo <= a <= hi <= contents@.len(),
            forall|k: int| lo <= k < a ==> spec_is_space(contents@[k]),
        decreases hi - a,
    {
        a += 1;
    }
    let mut b: usize = hi;
    while b > a && is_space(contents.get_char(b - 1))
        invariant
            a <= b <= hi <= contents@.len(),
            forall|k: int| b <= k < hi ==> spec_is_space(contents@[k]),
        decreases b - a,
    {
        b -= 1;
    }
    proof {
        let s = contents@;
        let ls = s.subrange(lo as int, hi as int);
        assert(forall|k: int| 0 <= k < ls.len() ==> ls[k] == s[lo + k]);
        lemma_trim_range(ls, a - lo, b - lo);
        assert(ls.subrange(a - lo, b - lo) =~= s.subrange(a as int, b as int));
    }
    (a, b)
}

/// Count the commas in `[a, b)`; when there are any, also the position
/// of the first.
fn scan_commas(contents: &str, a: usize, b: usize) -> (r: (usize, usize))
    requires
        a <= b <= contents@.len(),
    ensures
        ({
            let t = contents@.subrange(a as int, b as int);
            &&& r.0 == count_char(t, ',')
            &&& (r.0 > 0 ==> a <= r.1 < b && find_char(t, ',') == Some(r.1 - a as int))
        }),
{
    let ghost s = contents@;
    let mut cnt: usize = 0;
    let mut p: usize = b;
    let mut k: usize = a;
    while k < b
        invariant
            a <= k <= b <= contents@.len(),
            s == contents@,
            cnt <= k - a,
            cnt == count_char(s.subrange(a as int, k as int), ','),
            cnt == 0 ==> p == b && (forall|q: int| a <= q < k ==> s[q] != ','),
            cnt > 0 ==> a <= p < k && s[p as int] == ',' && (forall|q: int|
                a <= q < p ==> s[q] != ','),
        decreases b - k,
    {
        proof {
            assert(s.subrange(a as int, k + 1).drop_last() =~= s.subrange(a as int, k as int));
            assert(s.subrange(a as int, k + 1).last() == s[k as int]);
        }
        if contents.get_char(k) == ',' {
            if cnt == 0 {
                p = k;
            }
            cnt += 1;
        }
        k += 1;
    }
    proof {
        let t = s.subrange(a as int, b as int);
        assert(t =~= s.subrange(a as int, b as int));
        if cnt > 0 {
            assert(t[p - a as int] == ',');
            assert(forall|q: int| 0 <= q < p - a ==> t[q] != ',');
            lemma_find_char_first(t, ',', p - a as int);
        }
    }
    (cnt, p)
}

/// The line-numbered message for a malformed line.
fn format_invalid_line(line: usize) -> (r: String)
    requires
        line < usize::MAX,
    ensures
        r@ == invalid_format_msg(line as int + 1),
{
    let mut msg = "Invalid format at line ".to_owned();
    let num = u64_to_string((line as u64) + 1);
    msg.append(num.as_str());
    msg.append(": expected 'host,ip'");
    proof {
        assert(msg@ =~= invalid_format_msg(line as int + 1));
    }
    msg
}

/// Parse a hosts file: `host,ip` per line, `#` comments and blank lines
/// skipped. Returns the hosts in file order, a line-numbered error for
/// the first malformed line, or an error when the file names no host.
pub fn parse_hosts_file(contents: &str) -> (r: Result<Vec<Host>, String>)
    ensures
        ({
            let m = parse_from(contents@, 0, 0);
            match r {
                Ok(hosts) => {
                    &&& m is Ok
                    &&& hosts@.len() == m->Ok_0.len()
                    &&& hosts@.len() > 0
                    &&& forall|k: int| 0 <= k < hosts@.len() ==> (#[trigger] hosts@[k])@
                        == m->Ok_0[k]
                },
                Err(e) => match m {
                    Ok(hs) => hs.len() == 0 && e@ == "No hosts found in file"@,
                    Err(msg) => e@ == msg,
                },
            }
        }),
{
    let n = contents.unicode_len();
    let mut hosts: Vec<Host> = Vec::new();
    let mut i: usize = 0;
    let mut line: usize = 0;
    while i < n
        invariant
            contents@.len() == n,
            i <= n,
            line <= i,
            (match parse_from(contents@, i as int, line as int) {
                Ok(rest) => parse_from(contents@, 0, 0) == Ok::<Seq<HostV>, Seq<char>>(
                    hosts@.map_values(|h: Host| h@) + rest,
                ),
                Err(e) => parse_from(contents@, 0, 0) == Err::<Seq<HostV>, Seq<char>>(e),
            }),
        decreases n - i,
    {
        let ghost s = contents@;
        let ghost hv0 = hosts@.map_values(|h: Host| h@);
        let ghost t = trim_spec(s.subrange(i as int, next_newline(s, i as int)));

        let j = line_end(contents, i);
        let (a, b) = trim_range(contents, i, j);
        proof {
            assert(t == s.subrange(a as int, b as int));
        }

        if a == b || contents.get_char(a) == '#' {
            // blank line or comment: nothing recorded
            proof {
                assert(t.len() == 0 || t[0] == '#');
            }
        } else {
            proof {
                assert(t.len() > 0 && t[0] != '#');
            }
            let (cnt, p) = scan_commas(contents, a, b);
            if cnt != 1 {
                let msg = format_invalid_line(line);
                proof {
                    assert(parse_from(s, i as int, line as int) == Err::<Seq<HostV>, Seq<char>>(
                        invalid_format_msg(line as int + 1),
                    ));
                }
                return Err(msg);
            }
            let (a2, b2) = trim_range(contents, a, p);
            let (a3, b3) = trim_range(contents, p + 1, b);
            let name = contents.substring_char(a2, b2).to_owned();
            let ip = contents.substring_char(a3, b3).to_owned();
            hosts.push(Host { name, ip });
            proof {
                let p0 = find_char(t, ',')->0;
                assert(p0 == p - a);
                assert(t.take(p0) =~= s.subrange(a as int, p as int));
                assert(t.skip(p0 + 1) =~= s.subrange(p + 1, b as int));
                let h = HostV { name: trim_spec(t.take(p0)), ip: trim_spec(t.skip(p0 + 1)) };
                assert(hosts@.map_values(|h2: Host| h2@) =~= hv0.push(h));
            }
        }

        proof {
            // one model step: the line contributes its host, stops the
            // parse, or is skipped; re-associate the accumulated hosts
            let rest = parse_from(s, j as int + 1, line as int + 1);
            if !(t.len() == 0 || t[0] == '#') && count_char(t, ',') == 1 && rest is Ok {
                let p0 = find_char(t, ',')->0;
                let h = HostV { name: trim_spec(t.take(p0)), ip: trim_spec(t.skip(p0 + 1)) };
                assert(hv0 + (seq![h] + rest->Ok_0) =~= hv0.push(h) + rest->Ok_0);
            }
        }
        proof {
            if j == n {
                assert(parse_from(s, j as int + 1, line as int + 1) == parse_from(
                    s,
                    n as int,
                    line as int + 1,
                ));
            }
        }
        i = if j < n {
            j + 1
        } else {
            n
        };
        line += 1;
    }
    proof {
        assert(parse_from(contents@, i as int, line as int) == Ok::<Seq<HostV>, Seq<char>>(
            Seq::empty(),
        ));
        assert(hosts@.map_values(|h: Host| h@) + Seq::<HostV>::empty() =~= hosts@.map_values(
            |h: Host| h@,
        ));
    }
    if hosts.len() == 0 {
        return Err("No hosts found in file".to_owned());
    }
    Ok(hosts)
}

} // verus!
