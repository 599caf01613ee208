//! The port-enumeration oracle's output, parsed. The oracle prints a
//! whitespace-separated table: a header row whose `NODE` column carries the
//! protocol tag, and one row per socket, ending in a state token. Only
//! rows ending in `(LISTEN)` count; a row becomes a record when it has one
//! field more than the header, its address field ends in a port number,
//! and its protocol column reads TCP or UDP in any case. The first field
//! is the application label.

use vstd::prelude::*;

use crate::codec::{is_tcp_name, is_udp_name, Protocol};
use crate::scanner::{ports_view, ListenPort, ListenPortV};

verus! {

/// The characters that separate fields within a row.
pub open spec fn is_space(c: char) -> bool {
    c == ' ' || c == '\t' || c == '\r'
}

/// The lines of a text, split on newlines; a trailing newline yields a
/// final empty line, as splitting does.
pub open spec fn spec_lines(s: Seq<char>) -> Seq<Seq<char>>
    decreases s.len(),
{
    if s.len() == 0 {
        seq![Seq::<char>::empty()]
    } else {
        let rest = spec_lines(s.drop_first());
        if s[0] == '\n' {
            seq![Seq::<char>::empty()] + rest
        } else {
            seq![seq![s[0]] + rest[0]] + rest.drop_first()
        }
    }
}

/// Splitting never yields zero lines.
pub proof fn lemma_lines_nonempty(s: Seq<char>)
    ensures
        spec_lines(s).len() > 0,
    decreases s.len(),
{
    if s.len() > 0 {
        lemma_lines_nonempty(s.drop_first());
    }
}

/// The fields of a row: its maximal runs of non-separator characters, in
/// order.
pub open spec fn spec_fields(s: Seq<char>) -> Seq<Seq<char>>
    decreases s.len(),
{
    if s.len() == 0 {
        Seq::<Seq<char>>::empty()
    } else {
        let rest = spec_fields(s.drop_first());
        if is_space(s[0]) {
            rest
        } else if s.len() > 1 && !is_space(s[1]) {
            seq![seq![s[0]] + rest[0]] + rest.drop_first()
        } else {
            seq![seq![s[0]]] + rest
        }
    }
}

/// The part of a token after its last colon; the whole token when it has
/// none.
pub open spec fn after_last_colon(tok: Seq<char>) -> Seq<char>
    decreases tok.len(),
{
    if tok.len() == 0 {
        tok
    } else if tok.last() == ':' {
        Seq::<char>::empty()
    } else {
        after_last_colon(tok.drop_last()).push(tok.last())
    }
}

/// Whether a character is an ASCII digit.
pub open spec fn is_digit(c: char) -> bool {
    '0' <= c && c <= '9'
}

/// The number a run of digits spells, most significant first.
pub open spec fn digits_value(s: Seq<char>) -> int
    decreases s.len(),
{
    if s.len() == 0 {
        0
    } else {
        digits_value(s.drop_last()) * 10 + (s.last() as int - '0' as int)
    }
}

/// The port a token spells: every character an ASCII digit, at least one
/// of them, and the value within a port number's range.
pub open spec fn spec_parse_u16(s: Seq<char>) -> Option<u16> {
    if s.len() == 0 || exists|i: int| 0 <= i < s.len() && !is_digit(#[trigger] s[i]) {
        None
    } else if digits_value(s) > u16::MAX {
        None
    } else {
        Some(digits_value(s) as u16)
    }
}

/// The port at the tail of an address token: the digits after the last
/// colon, or the whole token when it has no colon.
pub open spec fn spec_parse_port(tok: Seq<char>) -> Option<u16> {
    spec_parse_u16(after_last_colon(tok))
}

/// The record one table row yields, if any: the row must have exactly one
/// field more than the header, end in the listening-state token, carry a
/// nonzero port at the tail of its address field, and name TCP or UDP in
/// the protocol column; its first field is the application label. Port
/// zero is dropped here, so every frame the scanner later emits carries a
/// nonzero label, as the wire protocol demands.
pub open spec fn spec_row_record(row: Seq<Seq<char>>, hlen: int, node_idx: int) -> Option<
    ListenPortV,
>
    recommends
        2 <= hlen,
        0 <= node_idx < hlen,
{
    if row.len() != hlen + 1 {
        None
    } else if row[row.len() - 1] != "(LISTEN)"@ {
        None
    } else {
        match spec_parse_port(row[hlen - 1]) {
            None => None,
            Some(port) => {
                if port == 0 {
                    None
                } else if is_tcp_name(row[node_idx]) {
                    Some(ListenPortV { port, protocol: Protocol::TCP, app: row[0] })
                } else if is_udp_name(row[node_idx]) {
                    Some(ListenPortV { port, protocol: Protocol::UDP, app: row[0] })
                } else {
                    None
                }
            },
        }
    }
}

/// The records of a run of table rows, in row order.
pub open spec fn spec_rows(rows: Seq<Seq<Seq<char>>>, hlen: int, node_idx: int) -> Seq<ListenPortV>
    decreases rows.len(),
{
    if rows.len() == 0 {
        Seq::<ListenPortV>::empty()
    } else {
        spec_rows(rows.drop_last(), hlen, node_idx) + match spec_row_record(
            rows.last(),
            hlen,
            node_idx,
        ) {
            Some(p) => seq![p],
            None => Seq::<ListenPortV>::empty(),
        }
    }
}

/// The index of the first header field reading `NODE`, or -1 when none
/// does.
pub open spec fn spec_find_node(header: Seq<Seq<char>>) -> int
    decreases header.len(),
{
    if header.len() == 0 {
        -1
    } else if header[0] == "NODE"@ {
        0
    } else {
        let r = spec_find_node(header.drop_first());
        if r < 0 {
            -1
        } else {
            r + 1
        }
    }
}

/// The first occurrence characterizes `spec_find_node`.
pub proof fn lemma_find_node_at(header: Seq<Seq<char>>, i: int)
    requires
        0 <= i < header.len(),
        header[i] == "NODE"@,
        forall|k: int| 0 <= k < i ==> header[k] != "NODE"@,
    ensures
        spec_find_node(header) == i,
    decreases header.len(),
{
    if i > 0 {
        assert(forall|k: int|
            0 <= k < header.drop_first().len() ==> #[trigger] header.drop_first()[k] == header[k
                + 1]);
        lemma_find_node_at(header.drop_first(), i - 1);
    }
}

/// An absent `NODE` field characterizes `spec_find_node`.
pub proof fn lemma_find_node_none(header: Seq<Seq<char>>)
    requires
        forall|k: int| 0 <= k < header.len() ==> header[k] != "NODE"@,
    ensures
        spec_find_node(header) == -1,
    decreases header.len(),
{
    if header.len() > 0 {
        assert(forall|k: int|
            0 <= k < header.drop_first().len() ==> #[trigger] header.drop_first()[k] == header[k
                + 1]);
        lemma_find_node_none(header.drop_first());
    }
}

/// The protocol column's index: the `NODE` header field when there is one,
/// and the last-but-one header field otherwise.
pub open spec fn spec_node_index(header: Seq<Seq<char>>) -> int {
    if spec_find_node(header) >= 0 {
        spec_find_node(header)
    } else {
        header.len() - 2
    }
}

/// The listening-socket records the oracle's tabular output describes.
/// Output whose header row has fewer than two fields yields none.
pub open spec fn spec_parse_oracle(s: Seq<char>) -> Seq<ListenPortV> {
    let lines = spec_lines(s);
    let header = spec_fields(lines[0]);
    if header.len() < 2 {
        Seq::<ListenPortV>::empty()
    } else {
        spec_rows(
            lines.drop_first().map_values(|line: Seq<char>| spec_fields(line)),
            header.len() as int,
            spec_node_index(header),
        )
    }
}

/// The characters of a text, one by one.
fn str_to_chars(s: &str) -> (r: Vec<char>)
    ensures
        r@ == s@,
{
    let n = s.unicode_len();
    let mut r: Vec<char> = Vec::new();
    let mut i: usize = 0;
    while i < n
        invariant
            i <= n,
            n == s@.len(),
            r@ == s@.take(i as int),
        decreases n - i,
    {
        r.push(s.get_char(i));
        i = i + 1;
        assert(r@ =~= s@.take(i as int));
    }
    assert(r@ =~= s@);
    r
}

/// The texts a run of spans cuts out of a character sequence.
pub open spec fn spans_view(chars: Seq<char>, spans: Seq<(usize, usize)>) -> Seq<Seq<char>> {
    Seq::new(spans.len(), |i: int| chars.subrange(spans[i].0 as int, spans[i].1 as int))
}

pub broadcast proof fn lemma_spans_view_len(chars: Seq<char>, spans: Seq<(usize, usize)>)
    ensures
        #[trigger] spans_view(chars, spans).len() == spans.len(),
{
}

pub broadcast proof fn lemma_spans_view_index(chars: Seq<char>, spans: Seq<(usize, usize)>, i: int)
    requires
        0 <= i < spans.len(),
    ensures
        #[trigger] spans_view(chars, spans)[i] == chars.subrange(
            spans[i].0 as int,
            spans[i].1 as int,
        ),
{
}

/// Whether every span lies within the character sequence, start before end.
pub open spec fn spans_in_range(chars: Seq<char>, spans: Seq<(usize, usize)>) -> bool {
    forall|i: int|
        0 <= i < spans.len() ==> (#[trigger] spans[i]).0 <= spans[i].1 <= chars.len()
}

/// The lines of the text, as spans into its character sequence.
fn split_lines(chars: &Vec<char>) -> (r: Vec<(usize, usize)>)
    ensures
        spans_view(chars@, r@) == spec_lines(chars@),
        spans_in_range(chars@, r@),
        r@.len() > 0,
{
    broadcast use {lemma_spans_view_len, lemma_spans_view_index};

    let n = chars.len();
    let mut done: Vec<(usize, usize)> = Vec::new();
    let mut line_start: usize = 0;
    let mut i: usize = 0;
    proof {
        lemma_lines_nonempty(chars@);
        assert(chars@.skip(0) =~= chars@);
    }
    while i < n
        invariant
            line_start <= i <= n,
            n == chars@.len(),
            spans_in_range(chars@, done@),
            spec_lines(chars@) =~= spans_view(chars@, done@) + seq![
                chars@.subrange(line_start as int, i as int) + spec_lines(chars@.skip(i as int))[0],
            ] + spec_lines(chars@.skip(i as int)).drop_first(),
        decreases n - i,
    {
        broadcast use {lemma_spans_view_len, lemma_spans_view_index};

        let ghost rem_i = spec_lines(chars@.skip(i as int));
        let ghost rem_n = spec_lines(chars@.skip(i as int + 1));
        proof {
            lemma_lines_nonempty(chars@.skip(i as int + 1));
            assert(chars@.skip(i as int).len() > 0);
            assert(chars@.skip(i as int)[0] == chars@[i as int]);
            assert(chars@.skip(i as int).drop_first() =~= chars@.skip(i as int + 1));
        }
        if chars[i] == '\n' {
            assert(rem_i == seq![Seq::<char>::empty()] + rem_n);
            let ghost done0 = done@;
            done.push((line_start, i));
            proof {
                assert(spans_view(chars@, done@) =~= spans_view(chars@, done0).push(
                    chars@.subrange(line_start as int, i as int),
                ));
                assert(rem_i[0] =~= Seq::<char>::empty());
                assert(chars@.subrange(line_start as int, i as int) + rem_i[0] =~= chars@.subrange(
                    line_start as int,
                    i as int,
                ));
                assert(rem_i.drop_first() =~= rem_n);
                assert(rem_n =~= seq![rem_n[0]] + rem_n.drop_first());
            }
            line_start = i + 1;
            i = i + 1;
            assert(chars@.subrange(line_start as int, i as int) =~= Seq::<char>::empty());
            assert(spec_lines(chars@) =~= spans_view(chars@, done@) + seq![
                chars@.subrange(line_start as int, i as int) + rem_n[0],
            ] + rem_n.drop_first());
        } else {
            assert(rem_i == seq![seq![chars@[i as int]] + rem_n[0]] + rem_n.drop_first());
            i = i + 1;
            proof {
                assert(chars@.subrange(line_start as int, i as int) =~= chars@.subrange(
                    line_start as int,
                    i as int - 1,
                ) + seq![chars@[i as int - 1]]);
                assert(rem_i.drop_first() =~= rem_n.drop_first());
                assert(chars@.subrange(line_start as int, i as int - 1) + rem_i[0]
                    =~= chars@.subrange(line_start as int, i as int) + rem_n[0]);
            }
            assert(spec_lines(chars@) =~= spans_view(chars@, done@) + seq![
                chars@.subrange(line_start as int, i as int) + rem_n[0],
            ] + rem_n.drop_first());
        }
    }
    proof {
        assert(chars@.skip(n as int) =~= Seq::<char>::empty());
        assert(spec_lines(chars@.skip(n as int)) == seq![Seq::<char>::empty()]);
    }
    let ghost done0 = done@;
    done.push((line_start, n));
    proof {
        assert(spans_view(chars@, done@) =~= spans_view(chars@, done0).push(
            chars@.subrange(line_start as int, n as int),
        ));
        assert(chars@.subrange(line_start as int, n as int) + spec_lines(
            chars@.skip(n as int),
        )[0] =~= chars@.subrange(line_start as int, n as int));
        assert(spans_view(chars@, done@) =~= spec_lines(chars@));
    }
    done
}

/// Where a field scan stands: the fields already closed, the open field,
/// and the fields the rest of the row still holds.
spec fn fields_partial(
    done: Seq<Seq<char>>,
    cur: Seq<char>,
    line: Seq<char>,
    i: int,
) -> Seq<Seq<char>> {
    let rem = spec_fields(line.skip(i));
    if cur.len() == 0 {
        done + rem
    } else if i < line.len() && !is_space(line[i]) {
        done + seq![cur + rem[0]] + rem.drop_first()
    } else {
        done + seq![cur] + rem
    }
}

/// The fields of one line of the text, as spans into its character
/// sequence.
#[verifier::rlimit(30)]
fn split_fields(chars: &Vec<char>, start: usize, end: usize) -> (r: Vec<(usize, usize)>)
    requires
        start <= end <= chars@.len(),
    ensures
        spans_view(chars@, r@) == spec_fields(chars@.subrange(start as int, end as int)),
        spans_in_range(chars@, r@),
{
    broadcast use {lemma_spans_view_len, lemma_spans_view_index};

    let ghost line = chars@.subrange(start as int, end as int);
    let mut done: Vec<(usize, usize)> = Vec::new();
    let mut cur_start: usize = start;
    let mut open: bool = false;
    let mut i: usize = start;
    proof {
        assert(line.skip(0) =~= line);
        assert(fields_partial(spans_view(chars@, done@), Seq::empty(), line, 0) =~= spec_fields(
            line,
        ));
    }
    while i < end
        invariant
            start <= i <= end <= chars@.len(),
            line == chars@.subrange(start as int, end as int),
            open ==> start <= cur_start < i,
            !open ==> cur_start == i,
            spans_in_range(chars@, done@),
            spec_fields(line) == fields_partial(
                spans_view(chars@, done@),
                if open {
                    chars@.subrange(cur_start as int, i as int)
                } else {
                    Seq::<char>::empty()
                },
                line,
                i - start,
            ),
        decreases end - i,
    {
        broadcast use {lemma_spans_view_len, lemma_spans_view_index};

        let ghost j = i - start;
        let ghost rem_i = spec_fields(line.skip(j));
        let ghost rem_n = spec_fields(line.skip(j + 1));
        let ghost cur = if open {
            chars@.subrange(cur_start as int, i as int)
        } else {
            Seq::<char>::empty()
        };
        proof {
            assert(line.skip(j).len() > 0);
            assert(line.skip(j)[0] == line[j]);
            assert(line[j] == chars@[i as int]);
            assert(line.skip(j).drop_first() =~= line.skip(j + 1));
            if j + 1 < line.len() {
                assert(line.skip(j)[1] == line[j + 1]);
            }
        }
        let c = chars[i];
        if c == ' ' || c == '\t' || c == '\r' {
            assert(is_space(line[j]));
            assert(rem_i == rem_n);
            if open {
                let ghost done0 = done@;
                done.push((cur_start, i));
                proof {
                    assert(spans_view(chars@, done@) =~= spans_view(chars@, done0).push(cur));
                    assert(spec_fields(line) == spans_view(chars@, done0) + seq![cur] + rem_i);
                    assert(spans_view(chars@, done0) + seq![cur] + rem_n =~= spans_view(
                        chars@,
                        done@,
                    ) + rem_n);
                }
                open = false;
            }
            i = i + 1;
            cur_start = i;
            assert(spec_fields(line) == fields_partial(
                spans_view(chars@, done@),
                Seq::<char>::empty(),
                line,
                i - start,
            ));
        } else {
            assert(!is_space(line[j]));
            if !open {
                open = true;
                cur_start = i;
            }
            i = i + 1;
            proof {
                let curn = chars@.subrange(cur_start as int, i as int);
                assert(curn =~= chars@.subrange(cur_start as int, i as int - 1) + seq![
                    chars@[i as int - 1],
                ]);
                assert(curn =~= cur + seq![line[j]]);
                if j + 1 < line.len() && !is_space(line[j + 1]) {
                    assert(rem_i == seq![seq![line[j]] + rem_n[0]] + rem_n.drop_first());
                    assert(cur + rem_i[0] =~= curn + rem_n[0]);
                    assert(rem_i.drop_first() =~= rem_n.drop_first());
                    if cur.len() == 0 {
                        assert(spec_fields(line) == spans_view(chars@, done@) + rem_i);
                        assert(spans_view(chars@, done@) + rem_i =~= spans_view(chars@, done@)
                            + seq![curn + rem_n[0]] + rem_n.drop_first());
                    } else {
                        assert(spec_fields(line) == spans_view(chars@, done@) + seq![
                            cur + rem_i[0],
                        ] + rem_i.drop_first());
                    }
                } else {
                    assert(rem_i == seq![seq![line[j]]] + rem_n);
                    assert(cur + rem_i[0] =~= curn);
                    if cur.len() == 0 {
                        assert(spec_fields(line) == spans_view(chars@, done@) + rem_i);
                        assert(spans_view(chars@, done@) + rem_i =~= spans_view(chars@, done@)
                            + seq![curn] + rem_n);
                    } else {
                        assert(spec_fields(line) == spans_view(chars@, done@) + seq![
                            cur + rem_i[0],
                        ] + rem_i.drop_first());
                        assert(spans_view(chars@, done@) + seq![cur + rem_i[0]]
                            + rem_i.drop_first() =~= spans_view(chars@, done@) + seq![curn]
                            + rem_n);
                    }
                }
                assert(spec_fields(line) == fields_partial(
                    spans_view(chars@, done@),
                    curn,
                    line,
                    i - start,
                ));
            }
        }
    }
    proof {
        assert(line.skip(end - start) =~= Seq::<char>::empty());
        assert(spec_fields(line.skip(end - start)) == Seq::<Seq<char>>::empty());
    }
    if open {
        let ghost done0 = done@;
        let ghost cur = chars@.subrange(cur_start as int, end as int);
        done.push((cur_start, end));
        proof {
            assert(spans_view(chars@, done@) =~= spans_view(chars@, done0).push(cur));
            assert(spec_fields(line) == spans_view(chars@, done0) + seq![cur]
                + Seq::<Seq<char>>::empty());
            assert(spans_view(chars@, done@) =~= spec_fields(line));
        }
    } else {
        assert(spans_view(chars@, done@) =~= spec_fields(line));
    }
    done
}

/// Whether a span of the character sequence reads exactly as the given
/// text.
fn token_eq_str(chars: &Vec<char>, a: usize, b: usize, s: &str) -> (r: bool)
    requires
        a <= b <= chars@.len(),
    ensures
        r == (chars@.subrange(a as int, b as int) == s@),
{
    let n = s.unicode_len();
    if b - a != n {
        assert(chars@.subrange(a as int, b as int).len() != s@.len());
        return false;
    }
    let mut j: usize = 0;
    while j < n
        invariant
            j <= n,
            n == s@.len(),
            a <= b <= chars@.len(),
            b - a == n,
            forall|k: int| 0 <= k < j ==> chars@.subrange(a as int, b as int)[k] == s@[k],
        decreases n - j,
    {
        if chars[a + j] != s.get_char(j) {
            assert(chars@.subrange(a as int, b as int)[j as int] != s@[j as int]);
            return false;
        }
        assert(chars@.subrange(a as int, b as int)[j as int] == s@[j as int]);
        j = j + 1;
    }
    assert(chars@.subrange(a as int, b as int) =~= s@);
    true
}

/// The whole token has no colon, so everything after the last colon is the
/// token itself.
proof fn lemma_alc_no_colon(tok: Seq<char>)
    requires
        forall|k: int| 0 <= k < tok.len() ==> tok[k] != ':',
    ensures
        after_last_colon(tok) == tok,
    decreases tok.len(),
{
    if tok.len() > 0 {
        lemma_alc_no_colon(tok.drop_last());
        assert(after_last_colon(tok) =~= tok);
    }
}

/// A last colon at a known position characterizes what follows it.
proof fn lemma_alc_last_colon(tok: Seq<char>, c: int)
    requires
        0 <= c < tok.len(),
        tok[c] == ':',
        forall|k: int| c < k < tok.len() ==> tok[k] != ':',
    ensures
        after_last_colon(tok) == tok.skip(c + 1),
    decreases tok.len(),
{
    if c == tok.len() - 1 {
        assert(after_last_colon(tok) =~= tok.skip(c + 1));
    } else {
        assert(tok.last() != ':');
        lemma_alc_last_colon(tok.drop_last(), c);
        assert(after_last_colon(tok) =~= tok.skip(c + 1));
    }
}

/// A run of digits spells a nonnegative number.
proof fn lemma_digits_value_nonneg(s: Seq<char>)
    requires
        forall|k: int| 0 <= k < s.len() ==> is_digit(#[trigger] s[k]),
    ensures
        digits_value(s) >= 0,
    decreases s.len(),
{
    if s.len() > 0 {
        assert(forall|k: int| 0 <= k < s.drop_last().len() ==> s.drop_last()[k] == s[k]);
        lemma_digits_value_nonneg(s.drop_last());
        assert(digits_value(s.drop_last()) * 10 >= 0) by (nonlinear_arith)
            requires
                digits_value(s.drop_last()) >= 0,
        ;
    }
}

/// The port spelled at the tail of the token a span cuts out, as
/// `spec_parse_port` says.
#[verifier::rlimit(30)]
fn parse_port_token(chars: &Vec<char>, a: usize, b: usize) -> (r: Option<u16>)
    requires
        a <= b <= chars@.len(),
    ensures
        r == spec_parse_port(chars@.subrange(a as int, b as int)),
{
    let ghost tok = chars@.subrange(a as int, b as int);
    // find the start of the digits: one past the last colon, if any
    let mut dstart: usize = a;
    let mut j: usize = a;
    while j < b
        invariant
            a <= j <= b <= chars@.len(),
            a <= dstart <= j,
            tok == chars@.subrange(a as int, b as int),
            dstart == a ==> forall|k: int| 0 <= k < j - a ==> tok[k] != ':',
            dstart > a ==> tok[dstart - a - 1] == ':' && (forall|k: int|
                dstart - a <= k < j - a ==> tok[k] != ':'),
        decreases b - j,
    {
        if chars[j] == ':' {
            assert(tok[j - a] == ':');
            dstart = j + 1;
        } else {
            assert(tok[j - a] != ':');
        }
        j = j + 1;
    }
    proof {
        if dstart == a {
            lemma_alc_no_colon(tok);
            assert(after_last_colon(tok) =~= tok.skip(dstart - a));
        } else {
            lemma_alc_last_colon(tok, dstart - a - 1);
        }
    }
    let ghost digits = tok.skip(dstart - a);
    assert(digits == after_last_colon(tok));
    if dstart == b {
        assert(digits.len() == 0);
        return None;
    }
    let mut val: u32 = 0;
    let mut over: bool = false;
    let mut k: usize = dstart;
    while k < b
        invariant
            dstart <= k <= b <= chars@.len(),
            a <= dstart,
            digits == chars@.subrange(a as int, b as int).skip(dstart - a),
            digits == after_last_colon(chars@.subrange(a as int, b as int)),
            digits.len() == b - dstart,
            forall|t: int| 0 <= t < k - dstart ==> is_digit(#[trigger] digits[t]),
            !over ==> val == digits_value(digits.take(k - dstart)) && val <= u16::MAX,
            over ==> digits_value(digits.take(k - dstart)) > u16::MAX,
        decreases b - k,
    {
        let c = chars[k];
        assert(digits[k - dstart] == c);
        if !('0' <= c && c <= '9') {
            assert(!is_digit(digits[k - dstart]));
            return None;
        }
        let d: u32 = (c as u32) - 48;
        assert(d == c as int - '0' as int);
        proof {
            assert(digits.take(k - dstart + 1).drop_last() =~= digits.take(k - dstart));
            assert(digits.take(k - dstart + 1).last() == digits[k - dstart]);
            assert(digits_value(digits.take(k - dstart + 1)) == digits_value(
                digits.take(k - dstart),
            ) * 10 + d);
        }
        if over || val > (65535 - d) / 10 {
            proof {
                let prev = digits_value(digits.take(k - dstart));
                if over {
                    assert(forall|t: int|
                        0 <= t < digits.take(k - dstart).len() ==> is_digit(
                            #[trigger] digits.take(k - dstart)[t],
                        ));
                    lemma_digits_value_nonneg(digits.take(k - dstart));
                    assert(prev * 10 > u16::MAX * 10) by (nonlinear_arith)
                        requires
                            prev > u16::MAX,
                    ;
                } else {
                    assert(val > (65535 - d) / 10);
                    assert(val * 10 + d > 65535) by (nonlinear_arith)
                        requires
                            0 <= d <= 9,
                            val > (65535 - d) / 10,
                            val >= 0,
                    ;
                }
            }
            over = true;
        } else {
            assert(val <= (65535 - d) / 10);
            assert(val * 10 + d <= 65535) by (nonlinear_arith)
                requires
                    0 <= d <= 9,
                    val <= (65535 - d) / 10,
                    val >= 0,
            ;
            val = val * 10 + d;
        }
        k = k + 1;
    }
    assert(digits.take(b - dstart) =~= digits);
    if over {
        return None;
    }
    assert(digits_value(digits) == val);
    Some(val as u16)
}

/// Whether a span of the character sequence names TCP, in any case.
fn token_is_tcp(chars: &Vec<char>, a: usize, b: usize) -> (r: bool)
    requires
        a <= b <= chars@.len(),
    ensures
        r == is_tcp_name(chars@.subrange(a as int, b as int)),
{
    if b - a != 3 {
        return false;
    }
    let c0 = chars[a];
    let c1 = chars[a + 1];
    let c2 = chars[a + 2];
    (c0 == 'T' || c0 == 't') && (c1 == 'C' || c1 == 'c') && (c2 == 'P' || c2 == 'p')
}

/// Whether a span of the character sequence names UDP, in any case.
fn token_is_udp(chars: &Vec<char>, a: usize, b: usize) -> (r: bool)
    requires
        a <= b <= chars@.len(),
    ensures
        r == is_udp_name(chars@.subrange(a as int, b as int)),
{
    if b - a != 3 {
        return false;
    }
    let c0 = chars[a];
    let c1 = chars[a + 1];
    let c2 = chars[a + 2];
    (c0 == 'U' || c0 == 'u') && (c1 == 'D' || c1 == 'd') && (c2 == 'P' || c2 == 'p')
}

/// The record one row of the table yields, if any, as `spec_row_record`
/// says; the application label is cut out of the input text.
fn row_record(
    s: &str,
    chars: &Vec<char>,
    row: &Vec<(usize, usize)>,
    hlen: usize,
    node_idx: usize,
) -> (r: Option<ListenPort>)
    requires
        chars@ == s@,
        spans_in_range(chars@, row@),
        2 <= hlen,
        node_idx < hlen,
    ensures
        match r {
            Some(p) => spec_row_record(spans_view(chars@, row@), hlen as int, node_idx as int)
                == Some(p@),
            None => spec_row_record(spans_view(chars@, row@), hlen as int, node_idx as int)
                is None,
        },
{
    broadcast use {lemma_spans_view_len, lemma_spans_view_index};

    let ghost rowv = spans_view(chars@, row@);
    if row.len() == 0 || row.len() - 1 != hlen {
        return None;
    }
    let (la, lb) = row[hlen];
    assert(rowv[rowv.len() - 1] == chars@.subrange(la as int, lb as int));
    if !token_eq_str(chars, la, lb, "(LISTEN)") {
        return None;
    }
    let (pa, pb) = row[hlen - 1];
    assert(rowv[hlen - 1] == chars@.subrange(pa as int, pb as int));
    let port = match parse_port_token(chars, pa, pb) {
        Some(port) => port,
        None => {
            return None;
        },
    };
    if port == 0 {
        return None;
    }
    let (na, nb) = row[node_idx];
    assert(rowv[node_idx as int] == chars@.subrange(na as int, nb as int));
    let (aa, ab) = row[0];
    assert(rowv[0] == chars@.subrange(aa as int, ab as int));
    if token_is_tcp(chars, na, nb) {
        let app = s.substring_char(aa, ab).to_owned();
        assert(app@ == rowv[0]);
        Some(ListenPort { port, protocol: Protocol::TCP, app })
    } else if token_is_udp(chars, na, nb) {
        let app = s.substring_char(aa, ab).to_owned();
        assert(app@ == rowv[0]);
        Some(ListenPort { port, protocol: Protocol::UDP, app })
    } else {
        None
    }
}

/// The listening-socket records in one pass of the oracle's output, as
/// `spec_parse_oracle` says: one record per well-formed listening row.
pub fn parse_open_ports(output: &str) -> (r: Vec<ListenPort>)
    ensures
        ports_view(r@) == spec_parse_oracle(output@),
{
    broadcast use {lemma_spans_view_len, lemma_spans_view_index};
    broadcast use {crate::scanner::lemma_ports_view_len, crate::scanner::lemma_ports_view_index};

    let chars = str_to_chars(output);
    let lines = split_lines(&chars);
    let ghost linesv = spans_view(chars@, lines@);
    let (ha, hb) = lines[0];
    let header = split_fields(&chars, ha, hb);
    let ghost headerv = spec_fields(linesv[0]);
    assert(spans_view(chars@, header@) == headerv);
    let hlen = header.len();
    if hlen < 2 {
        let r: Vec<ListenPort> = Vec::new();
        assert(ports_view(r@) =~= spec_parse_oracle(output@));
        return r;
    }
    // the protocol column: the NODE header field, else the last-but-one
    let mut node_idx: usize = hlen - 2;
    let mut found: bool = false;
    let mut h: usize = 0;
    while h < hlen
        invariant
            h <= hlen,
            hlen == header@.len(),
            spans_in_range(chars@, header@),
            headerv == spans_view(chars@, header@),
            !found ==> node_idx == hlen - 2 && (forall|k: int| 0 <= k < h ==> headerv[k] != "NODE"@),
            found ==> node_idx < h && headerv[node_idx as int] == "NODE"@ && (forall|k: int|
                0 <= k < node_idx ==> headerv[k] != "NODE"@),
        decreases hlen - h,
    {
        broadcast use {lemma_spans_view_len, lemma_spans_view_index};

        if !found {
            let (fa, fb) = header[h];
            if token_eq_str(&chars, fa, fb, "NODE") {
                assert(headerv[h as int] == "NODE"@);
                node_idx = h;
                found = true;
            } else {
                assert(headerv[h as int] != "NODE"@);
            }
        }
        h = h + 1;
    }
    proof {
        if found {
            lemma_find_node_at(headerv, node_idx as int);
        } else {
            lemma_find_node_none(headerv);
        }
        assert(spec_node_index(headerv) == node_idx as int);
    }
    let ghost rowsv = linesv.drop_first().map_values(|line: Seq<char>| spec_fields(line));
    let mut records: Vec<ListenPort> = Vec::new();
    let mut li: usize = 1;
    assert(ports_view(records@) =~= spec_rows(rowsv.take(0), hlen as int, node_idx as int));
    while li < lines.len()
        invariant
            1 <= li <= lines@.len(),
            hlen == header@.len(),
            2 <= hlen,
            node_idx < hlen,
            chars@ == output@,
            spans_in_range(chars@, lines@),
            linesv == spans_view(chars@, lines@),
            rowsv == linesv.drop_first().map_values(|line: Seq<char>| spec_fields(line)),
            ports_view(records@) == spec_rows(rowsv.take(li - 1), hlen as int, node_idx as int),
        decreases lines@.len() - li,
    {
        broadcast use {lemma_spans_view_len, lemma_spans_view_index};
        broadcast use {
            crate::scanner::lemma_ports_view_len,
            crate::scanner::lemma_ports_view_index,
        };

        let (ra, rb) = lines[li];
        let row = split_fields(&chars, ra, rb);
        assert(linesv[li as int] == chars@.subrange(ra as int, rb as int));
        assert(rowsv[li - 1] == spec_fields(linesv[li as int]));
        assert(spans_view(chars@, row@) == rowsv[li - 1]);
        let ghost recs0 = records@;
        let rec = row_record(output, &chars, &row, hlen, node_idx);
        proof {
            assert(rowsv.take(li as int).drop_last() =~= rowsv.take(li - 1));
            assert(rowsv.take(li as int).last() == rowsv[li - 1]);
        }
        match rec {
            Some(p) => {
                records.push(p);
                assert(ports_view(records@) =~= ports_view(recs0).push(p@));
                assert(ports_view(records@) =~= spec_rows(
                    rowsv.take(li as int),
                    hlen as int,
                    node_idx as int,
                ));
            },
            None => {
                assert(ports_view(records@) =~= spec_rows(
                    rowsv.take(li as int),
                    hlen as int,
                    node_idx as int,
                ));
            },
        }
        li = li + 1;
    }
    proof {
        assert(rowsv.take(lines@.len() - 1) =~= rowsv);
        assert(spec_parse_oracle(output@) == spec_rows(rowsv, hlen as int, node_idx as int));
    }
    records
}

} // verus!
