use vstd::prelude::*;

verus! {

/// The byte `/`.
pub const SLASH: u8 = 47;

/// The byte `.`.
pub const DOT: u8 = 46;

/// The line feed byte.
pub const LF: u8 = 10;

/// The ASCII whitespace bytes that separate the tokens of a request line.
pub open spec fn is_space(b: u8) -> bool {
    b == 32 || b == 9 || b == 10 || b == 11 || b == 12 || b == 13
}

/// Index of the first line feed in `s`, or its length when there is none.
pub open spec fn line_end(s: Seq<u8>, i: nat) -> nat
    decreases s.len() - i,
{
    if i < s.len() && s[i as int] != LF {
        line_end(s, i + 1)
    } else {
        i
    }
}

/// First index at or after `i` that holds no whitespace (or the end).
pub open spec fn skip_space(s: Seq<u8>, i: nat) -> nat
    decreases s.len() - i,
{
    if i < s.len() && is_space(s[i as int]) {
        skip_space(s, i + 1)
    } else {
        i
    }
}

/// First index at or after `i` that holds whitespace (or the end).
pub open spec fn skip_token(s: Seq<u8>, i: nat) -> nat
    decreases s.len() - i,
{
    if i < s.len() && !is_space(s[i as int]) {
        skip_token(s, i + 1)
    } else {
        i
    }
}

/// The path that a request names: the second whitespace-separated token of
/// its first line, or `/` when the line has fewer than two tokens.
pub open spec fn request_path_of(req: Seq<u8>) -> Seq<u8> {
    let line = req.take(line_end(req, 0) as int);
    let method_start = skip_space(line, 0);
    let method_end = skip_token(line, method_start);
    let path_start = skip_space(line, method_end);
    let path_end = skip_token(line, path_start);
    if path_start < path_end {
        line.subrange(path_start as int, path_end as int)
    } else {
        seq![SLASH]
    }
}

proof fn lemma_line_end_bound(s: Seq<u8>, i: nat)
    requires
        i <= s.len(),
    ensures
        i <= line_end(s, i) <= s.len(),
    decreases s.len() - i,
{
    if i < s.len() && s[i as int] != LF {
        lemma_line_end_bound(s, i + 1);
    }
}

proof fn lemma_skip_space_bound(s: Seq<u8>, i: nat)
    requires
        i <= s.len(),
    ensures
        i <= skip_space(s, i) <= s.len(),
    decreases s.len() - i,
{
    if i < s.len() && is_space(s[i as int]) {
        lemma_skip_space_bound(s, i + 1);
    }
}

proof fn lemma_skip_token_bound(s: Seq<u8>, i: nat)
    requires
        i <= s.len(),
    ensures
        i <= skip_token(s, i) <= s.len(),
    decreases s.len() - i,
{
    if i < s.len() && !is_space(s[i as int]) {
        lemma_skip_token_bound(s, i + 1);
    }
}

fn is_space_byte(b: u8) -> (r: bool)
    ensures
        r == is_space(b),
{
    b == 32 || b == 9 || b == 10 || b == 11 || b == 12 || b == 13
}

fn find_line_end(req: &[u8]) -> (r: usize)
    ensures
        r == line_end(req@, 0),
        r <= req@.len(),
{
    let mut i: usize = 0;
    while i < req.len() && req[i] != LF
        invariant
            i <= req@.len(),
            line_end(req@, i as nat) == line_end(req@, 0),
        decreases req@.len() - i,
    {
        i = i + 1;
    }
    proof {
        lemma_line_end_bound(req@, 0);
    }
    i
}

fn skip_spaces(line: &[u8], end: usize, start: usize) -> (r: usize)
    requires
        start <= end <= line@.len(),
    ensures
        r == skip_space(line@.take(end as int), start as nat),
        start <= r <= end,
{
    let ghost s = line@.take(end as int);
    let mut i: usize = start;
    while i < end && is_space_byte(line[i])
        invariant
            start <= i <= end <= line@.len(),
            s == line@.take(end as int),
            skip_space(s, i as nat) == skip_space(s, start as nat),
        decreases end - i,
    {
        i = i + 1;
    }
    i
}

fn skip_non_spaces(line: &[u8], end: usize, start: usize) -> (r: usize)
    requires
        start <= end <= line@.len(),
    ensures
        r == skip_token(line@.take(end as int), start as nat),
        start <= r <= end,
{
    let ghost s = line@.take(end as int);
    let mut i: usize = start;
    while i < end && !is_space_byte(line[i])
        invariant
            start <= i <= end <= line@.len(),
            s == line@.take(end as int),
            skip_token(s, i as nat) == skip_token(s, start as nat),
        decreases end - i,
    {
        i = i + 1;
    }
    i
}

/// Extracts the request path from the bytes of one read of a request.
pub fn request_path(req: &[u8]) -> (r: Vec<u8>)
    ensures
        r@ == request_path_of(req@),
{
    let end = find_line_end(req);
    let method_start = skip_spaces(req, end, 0);
    let method_end = skip_non_spaces(req, end, method_start);
    let path_start = skip_spaces(req, end, method_end);
    let path_end = skip_non_spaces(req, end, path_start);
    let mut out: Vec<u8> = Vec::new();
    if path_start < path_end {
        let mut i: usize = path_start;
        while i < path_end
            invariant
                path_start <= i <= path_end <= end <= req@.len(),
                out@ == req@.subrange(path_start as int, i as int),
            decreases path_end - i,
        {
            out.push(req[i]);
            i = i + 1;
        }
        assert(out@ =~= req@.take(end as int).subrange(path_start as int, path_end as int));
    } else {
        out.push(SLASH);
        assert(out@ =~= seq![SLASH]);
    }
    out
}

} // verus!
