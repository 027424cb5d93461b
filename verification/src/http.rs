//! The fallback HTTP endpoint: a request for the root page gets the player
//! page, anything else gets 404.

use vstd::prelude::*;
use vstd::string::is_ascii_spec_bytes;

verus! {

/// The bytes of an ASCII text.
pub open spec fn ascii_bytes(s: Seq<char>) -> Seq<u8> {
    s.map_values(|c: char| c as u8)
}

/// `pat` occurs in `s` starting at offset `i`.
pub open spec fn occurs_at(s: Seq<u8>, pat: Seq<u8>, i: int) -> bool {
    0 <= i && i + pat.len() <= s.len() && s.subrange(i, i + pat.len()) == pat
}

/// `pat` occurs somewhere in `s`.
pub open spec fn occurs_in(s: Seq<u8>, pat: Seq<u8>) -> bool {
    exists|i: int| occurs_at(s, pat, i)
}

/// Request line prefix of a request for the root page.
pub open spec fn spec_index_pattern() -> Seq<u8> {
    ascii_bytes("GET / "@)
}

/// Decimal digits of `n`, most significant first, without leading zeros.
pub open spec fn spec_decimal(n: nat) -> Seq<u8>
    decreases n,
{
    if n < 10 {
        seq![(48 + n) as u8]
    } else {
        spec_decimal(n / 10).push((48 + n % 10) as u8)
    }
}

/// The number that the decimal digits `ds` write.
pub open spec fn decimal_value(ds: Seq<u8>) -> int
    decreases ds.len(),
{
    if ds.len() == 0 {
        0
    } else {
        decimal_value(ds.drop_last()) * 10 + (ds.last() - 48)
    }
}

/// `spec_decimal(n)` writes `n`: its bytes are ASCII digits, there is no
/// leading zero, and read back they give `n`.
pub proof fn lemma_decimal_writes_n(n: nat)
    ensures
        forall|i: int| 0 <= i < spec_decimal(n).len() ==> 48 <= #[trigger] spec_decimal(n)[i] <= 57,
        spec_decimal(n).len() >= 1,
        n > 0 ==> spec_decimal(n)[0] != 48,
        decimal_value(spec_decimal(n)) == n,
    decreases n,
{
    let ds = spec_decimal(n);
    if n >= 10 {
        let m = n / 10;
        lemma_decimal_writes_n(m);
        let d = (48 + n % 10) as u8;
        assert(48 + n % 10 < 256);
        assert(ds == spec_decimal(m).push(d));
        assert(ds.drop_last() =~= spec_decimal(m));
        assert(ds.last() == d);
        assert(ds[0] == spec_decimal(m)[0]);
        assert(m > 0);
        assert(m * 10 + n % 10 == n);
    } else {
        assert(ds.drop_last() =~= Seq::<u8>::empty());
        assert(decimal_value(ds.drop_last()) == 0);
    }
}

/// The answer to a request for the root page that serves `html`.
pub open spec fn spec_ok_response(html: Seq<u8>) -> Seq<u8> {
    ascii_bytes("HTTP/1.1 200 OK\r\nContent-Type: text/html\r\nContent-Length: "@) + spec_decimal(
        html.len(),
    ) + ascii_bytes("\r\nAccess-Control-Allow-Origin: *\r\n\r\n"@) + html
}

/// The answer to any other request.
pub open spec fn spec_not_found_response() -> Seq<u8> {
    ascii_bytes("HTTP/1.1 404 Not Found\r\n\r\n"@)
}

/// The bytes of an ASCII string.
fn literal_bytes(s: &str) -> (b: &[u8])
    requires
        s.is_ascii(),
    ensures
        b@ == ascii_bytes(s@),
{
    proof {
        is_ascii_spec_bytes(s);
    }
    let b = s.as_bytes();
    assert(b@ =~= ascii_bytes(s@));
    b
}

/// Whether `request` asks for the root page: its bytes hold "GET / ".
pub fn is_index_request(request: &[u8]) -> (found: bool)
    ensures
        found == occurs_in(request@, spec_index_pattern()),
{
    let pat_str = "GET / ";
    proof {
        reveal_strlit("GET / ");
    }
    let pat = literal_bytes(pat_str);
    let n = request.len();
    let m = pat.len();
    if n < m {
        assert forall|i: int| !occurs_at(request@, pat@, i) by {}
        return false;
    }
    for i in 0..n - m + 1
        invariant
            n == request@.len(),
            m == pat@.len(),
            m <= n,
            pat@ == spec_index_pattern(),
            forall|j: int| 0 <= j < i ==> !occurs_at(request@, pat@, j),
    {
        let mut k: usize = 0;
        let mut same = true;
        while k < m
            invariant
                n == request@.len(),
                m == pat@.len(),
                i + m <= n,
                k <= m,
                same == (forall|j: int| 0 <= j < k ==> request@[i + j] == pat@[j]),
            decreases m - k,
        {
            same = same && request[i + k] == pat[k];
            k = k + 1;
        }
        if same {
            assert(request@.subrange(i as int, i + m) =~= pat@);
            assert(occurs_at(request@, pat@, i as int));
            return true;
        } else {
            proof {
                let j = choose|j: int| 0 <= j < m && request@[i + j] != pat@[j];
                assert(request@.subrange(i as int, i + m)[j] != pat@[j]);
            }
        }
    }
    false
}
/// Decimal digits of `n`.
pub fn decimal_bytes(n: usize) -> (digits: Vec<u8>)
    ensures
        digits@ == spec_decimal(n as nat),
        decimal_value(digits@) == n,
    decreases n,
{
    proof {
        lemma_decimal_writes_n(n as nat);
    }
    if n < 10 {
        let d: u8 = n as u8;
        vec![48u8 + d]
    } else {
        let mut digits = decimal_bytes(n / 10);
        let d: u8 = (n % 10) as u8;
        digits.push(48u8 + d);
        digits
    }
}

/// The answer to `request` when the root page is `html`.
pub fn http_response(request: &[u8], html: &[u8]) -> (response: Vec<u8>)
    ensures
        response@ == if occurs_in(request@, spec_index_pattern()) {
            spec_ok_response(html@)
        } else {
            spec_not_found_response()
        },
{
    if is_index_request(request) {
        let head_str = "HTTP/1.1 200 OK\r\nContent-Type: text/html\r\nContent-Length: ";
        let tail_str = "\r\nAccess-Control-Allow-Origin: *\r\n\r\n";
        proof {
            reveal_strlit("HTTP/1.1 200 OK\r\nContent-Type: text/html\r\nContent-Length: ");
            reveal_strlit("\r\nAccess-Control-Allow-Origin: *\r\n\r\n");
        }
        let mut out: Vec<u8> = Vec::new();
        append_bytes(&mut out, literal_bytes(head_str));
        let mut len_digits = decimal_bytes(html.len());
        out.append(&mut len_digits);
        append_bytes(&mut out, literal_bytes(tail_str));
        append_bytes(&mut out, html);
        out
    } else {
        let nf_str = "HTTP/1.1 404 Not Found\r\n\r\n";
        proof {
            reveal_strlit("HTTP/1.1 404 Not Found\r\n\r\n");
        }
        let mut out: Vec<u8> = Vec::new();
        append_bytes(&mut out, literal_bytes(nf_str));
        out
    }
}

/// Appends the bytes of `src` to `out`.
fn append_bytes(out: &mut Vec<u8>, src: &[u8])
    ensures
        final(out)@ == old(out)@ + src@,
{
    let n = src.len();
    for i in 0..n
        invariant
            n == src@.len(),
            out@ == old(out)@ + src@.take(i as int),
    {
        out.push(src[i]);
        assert(src@.take(i + 1) =~= src@.take(i as int).push(src@[i as int]));
    }
    assert(src@.take(n as int) =~= src@);
}

} // verus!
