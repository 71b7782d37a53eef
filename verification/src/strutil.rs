//! Small string helpers shared by the matcher and the loader: character
//! access, equality, and the shell-safe joining used in error messages.

use vstd::prelude::*;
use vstd::string::StrSliceExecFns;

verus! {

broadcast use vstd::string::group_string_axioms;

/// Byte-exact equality of two string slices, stated over their views.
pub fn str_eq(a: &str, b: &str) -> (r: bool)
    ensures
        r == (a@ == b@),
{
    let a_len = a.unicode_len();
    let b_len = b.unicode_len();
    if a_len != b_len {
        return false;
    }
    let mut i: usize = 0;
    while i < a_len
        invariant
            a_len == a@.len(),
            a_len == b@.len(),
            i <= a_len,
            forall|j: int| 0 <= j < i ==> a@[j] == b@[j],
        decreases a_len - i,
    {
        if a.get_char(i) != b.get_char(i) {
            return false;
        }
        i += 1;
    }
    proof {
        assert(a@ =~= b@);
    }
    true
}

/// The characters of a string slice, in order.
pub fn chars_of(s: &str) -> (r: Vec<char>)
    ensures
        r@ == s@,
{
    let n = s.unicode_len();
    let mut out: Vec<char> = Vec::new();
    let mut i: usize = 0;
    while i < n
        invariant
            n == s@.len(),
            i <= n,
            out@ == s@.take(i as int),
        decreases n - i,
    {
        let c = s.get_char(i);
        out.push(c);
        i += 1;
        proof {
            assert(out@ =~= s@.take(i as int));
        }
    }
    proof {
        assert(out@ =~= s@);
    }
    out
}

/// Relies on `String: FromIterator<char>`: collecting characters yields the
/// string of exactly those characters, in order.
#[verifier::external_body]
pub fn string_from_chars(cs: &Vec<char>) -> (r: String)
    ensures
        r@ == cs@,
{
    cs.iter().collect()
}

/// The parts joined with the separator between consecutive parts.
pub open spec fn joined_with(parts: Seq<Seq<char>>, sep: Seq<char>) -> Seq<char>
    decreases parts.len(),
{
    if parts.len() == 0 {
        Seq::empty()
    } else if parts.len() == 1 {
        parts[0]
    } else {
        parts[0] + sep + joined_with(parts.drop_first(), sep)
    }
}

/// Joining one more part appends one separator and the part.
pub proof fn lemma_joined_with_push(parts: Seq<Seq<char>>, sep: Seq<char>, last: Seq<char>)
    requires
        parts.len() >= 1,
    ensures
        joined_with(parts.push(last), sep) == joined_with(parts, sep) + sep + last,
    decreases parts.len(),
{
    if parts.len() == 1 {
        assert(parts.push(last).drop_first() =~= seq![last]);
        assert(parts.push(last)[0] == parts[0]);
        assert(joined_with(seq![last], sep) == last);
        assert(joined_with(parts.push(last), sep) == parts[0] + sep + last);
    } else {
        assert(parts.push(last).drop_first() =~= parts.drop_first().push(last));
        lemma_joined_with_push(parts.drop_first(), sep, last);
        assert(parts[0] + sep + (joined_with(parts.drop_first(), sep) + sep + last) =~= (parts[0]
            + sep + joined_with(parts.drop_first(), sep)) + sep + last);
    }
}

/// Join string parts with a separator.
pub fn join_with(parts: &Vec<String>, sep: &str) -> (r: String)
    ensures
        r@ == joined_with(parts.deep_view(), sep@),
{
    let n = parts.len();
    if n == 0 {
        return String::new();
    }
    let mut acc = parts[0].clone();
    let mut i: usize = 1;
    while i < n
        invariant
            n == parts.len(),
            1 <= i <= n,
            acc@ == joined_with(parts.deep_view().take(i as int), sep@),
        decreases n - i,
    {
        let ghost pre = parts.deep_view().take(i as int);
        acc.append(sep);
        acc.append(parts[i].as_str());
        proof {
            assert(parts.deep_view().take(i + 1 as int) =~= pre.push(parts.deep_view()[i as int]));
            lemma_joined_with_push(pre, sep@, parts.deep_view()[i as int]);
        }
        i += 1;
    }
    proof {
        assert(parts.deep_view().take(n as int) =~= parts.deep_view());
    }
    acc
}

/// The character of one decimal digit.
pub open spec fn digit_char(d: nat) -> char {
    if d == 0 {
        '0'
    } else if d == 1 {
        '1'
    } else if d == 2 {
        '2'
    } else if d == 3 {
        '3'
    } else if d == 4 {
        '4'
    } else if d == 5 {
        '5'
    } else if d == 6 {
        '6'
    } else if d == 7 {
        '7'
    } else if d == 8 {
        '8'
    } else {
        '9'
    }
}

/// The decimal rendering of a number, most significant digit first.
pub open spec fn dec_str(n: nat) -> Seq<char>
    decreases n,
{
    if n < 10 {
        seq![digit_char(n)]
    } else {
        dec_str(n / 10).push(digit_char(n % 10))
    }
}

/// Render a number in decimal.
pub fn usize_to_string(n: usize) -> (r: String)
    ensures
        r@ == dec_str(n as nat),
    decreases n,
{
    let d: &str = match n % 10 {
        0 => "0",
        1 => "1",
        2 => "2",
        3 => "3",
        4 => "4",
        5 => "5",
        6 => "6",
        7 => "7",
        8 => "8",
        _ => "9",
    };
    proof {
        reveal_strlit("0");
        reveal_strlit("1");
        reveal_strlit("2");
        reveal_strlit("3");
        reveal_strlit("4");
        reveal_strlit("5");
        reveal_strlit("6");
        reveal_strlit("7");
        reveal_strlit("8");
        reveal_strlit("9");
        assert(d@ =~= seq![digit_char((n % 10) as nat)]);
    }
    if n < 10 {
        String::from_str(d)
    } else {
        let prefix = usize_to_string(n / 10);
        let r = prefix.concat(d);
        proof {
            assert(r@ =~= dec_str((n / 10) as nat).push(digit_char((n % 10) as nat)));
        }
        r
    }
}

/// What `shlex::try_join` returns for a token list: a function of the tokens
/// alone.  `None` stands for its one error, a token holding a nul byte.
pub uninterp spec fn shell_joined(tokens: Seq<Seq<char>>) -> Option<Seq<char>>;

/// Relies on `shlex::try_join`: quoting is deterministic in the words alone,
/// and the only error it reports is a word containing a nul byte.
#[verifier::external_body]
fn shell_join(tokens: &Vec<String>) -> (r: Option<String>)
    ensures
        match r {
            Some(s) => shell_joined(tokens.deep_view()) == Some(s@),
            None => shell_joined(tokens.deep_view()) is None,
        },
{
    match shlex::try_join(tokens.iter().map(String::as_str)) {
        Ok(joined) => Some(joined),
        Err(_) => None,
    }
}

/// What `join_command` returns: the shell-safe joining of the tokens, or a
/// fixed note where the tokens cannot be rendered.
pub open spec fn join_command_spec(tokens: Seq<Seq<char>>) -> Seq<char> {
    match shell_joined(tokens) {
        Some(s) => s,
        None => "unable to render example"@,
    }
}

/// Render a command's tokens as one shell-safe line, for error messages.
pub fn join_command(tokens: &Vec<String>) -> (r: String)
    ensures
        r@ == join_command_spec(tokens.deep_view()),
{
    match shell_join(tokens) {
        Some(joined) => joined,
        None => String::from_str("unable to render example"),
    }
}

} // verus!
