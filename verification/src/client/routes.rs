//! The addresses of the server's resources: fixed steps with escaped names
//! between them, and the page asked for.
use vstd::prelude::*;
use crate::client::address::{encode_path, escaped_text};
use crate::text::{decimal, push_char, push_decimal};

verus! {

/// `prefix`, the escaped `name`, then `suffix`.
pub fn path1(prefix: &str, name: &str, suffix: &str) -> (r: String)
    ensures
        r@ == prefix@ + escaped_text(name@) + suffix@,
{
    let mut out = prefix.to_owned();
    let e = encode_path(name);
    out.append(e.as_str());
    out.append(suffix);
    out
}

/// `prefix`, the escaped `first`, `middle`, the escaped `second`, then `suffix`.
pub fn path2(prefix: &str, first: &str, middle: &str, second: &str, suffix: &str) -> (r: String)
    ensures
        r@ == prefix@ + escaped_text(first@) + middle@ + escaped_text(second@) + suffix@,
{
    let mut out = prefix.to_owned();
    let a = encode_path(first);
    out.append(a.as_str());
    out.append(middle);
    let b = encode_path(second);
    out.append(b.as_str());
    out.append(suffix);
    out
}

/// An address with the page asked for.
pub fn paged(path: String, page: u32) -> (r: String)
    ensures
        r@ == path@ + "?page="@ + decimal(page as nat),
{
    let mut out = path;
    out.append("?page=");
    push_decimal(&mut out, page as u64);
    out
}

/// A whole number in decimal, with a minus sign when it is negative.
pub open spec fn signed_decimal(n: int) -> Seq<char> {
    if n < 0 {
        seq!['-'] + decimal((-n) as nat)
    } else {
        decimal(n as nat)
    }
}

fn push_signed(out: &mut String, n: i32)
    ensures
        final(out)@ == old(out)@ + signed_decimal(n as int),
{
    if n < 0 {
        push_char(out, '-');
        let m: i64 = -(n as i64);
        push_decimal(out, m as u64);
        assert(old(out)@.push('-') + decimal(m as nat) =~= old(out)@ + (seq!['-'] + decimal(m as nat)));
    } else {
        push_decimal(out, n as u64);
    }
}

/// The address of a month of the archive, at a page.
pub fn archive_month_path(year: i32, month: u8, page: u32) -> (r: String)
    ensures
        r@ == "/api/archive/"@ + signed_decimal(year as int) + "/"@ + decimal(month as nat) + "?page="@
            + decimal(page as nat),
{
    let mut out = "/api/archive/".to_owned();
    push_signed(&mut out, year);
    out.append("/");
    push_decimal(&mut out, month as u64);
    out.append("?page=");
    push_decimal(&mut out, page as u64);
    out
}

/// The full address of a resource on the server.
pub fn address(base: &str, path: &str) -> (r: String)
    ensures
        r@ == base@ + path@,
{
    let mut out = base.to_owned();
    out.append(path);
    out
}

/// The cookie header that carries a session token.
pub fn session_header(token: &str) -> (r: String)
    ensures
        r@ == "session="@ + token@,
{
    let mut out = "session=".to_owned();
    out.append(token);
    out
}

} // verus!
