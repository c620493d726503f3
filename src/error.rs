use vstd::prelude::*;

verus! {

/// A line-tagged diagnostic. It never aborts a scan.
#[derive(Debug)]
pub struct LoxError {
    pub line: i32,
    pub place: Option<String>,
    pub message: Option<String>,
}

pub type LoxResult<T> = Result<T, LoxError>;

/// The mathematical value of a `LoxError`.
pub struct ErrorView {
    pub line: i32,
    pub place: Option<Seq<char>>,
    pub message: Option<Seq<char>>,
}

impl View for LoxError {
    type V = ErrorView;

    open spec fn view(&self) -> ErrorView {
        ErrorView {
            line: self.line,
            place: match self.place {
                Some(p) => Some(p@),
                None => None,
            },
            message: match self.message {
                Some(m) => Some(m@),
                None => None,
            },
        }
    }
}

/// The views of a sequence of diagnostics, in order.
pub open spec fn error_views(es: Seq<LoxError>) -> Seq<ErrorView> {
    es.map_values(|e: LoxError| e@)
}

pub proof fn lemma_error_views_push(es: Seq<LoxError>, e: LoxError)
    ensures
        error_views(es.push(e)) == error_views(es).push(e@),
{
    assert(error_views(es.push(e)) =~= error_views(es).push(e@));
}

/// The decimal digit of `d`, for `d < 10`.
pub open spec fn digit_char(d: nat) -> char {
    seq!['0', '1', '2', '3', '4', '5', '6', '7', '8', '9'][d as int]
}

/// The decimal digits of `n`, most significant first, without leading zeros.
pub open spec fn digits(n: nat) -> Seq<char>
    decreases n,
{
    if n < 10 {
        seq![digit_char(n)]
    } else {
        digits(n / 10).push(digit_char(n % 10))
    }
}

/// The decimal text of `n`: a minus sign for a negative number, then its digits.
pub open spec fn decimal_text(n: int) -> Seq<char> {
    if n < 0 {
        "-"@ + digits((-n) as nat)
    } else {
        digits(n as nat)
    }
}

/// How a diagnostic reads: `[<line>] Error <place>: <message>`, with `?` for a missing place
/// and `No message` for a missing message.
pub open spec fn report_text(e: ErrorView) -> Seq<char> {
    "["@ + decimal_text(e.line as int) + "] Error "@ + match e.place {
        Some(p) => p,
        None => "?"@,
    } + ": "@ + match e.message {
        Some(m) => m,
        None => "No message"@,
    }
}

fn push_digit(out: &mut String, d: u32)
    requires
        d < 10,
    ensures
        final(out)@ == old(out)@.push(digit_char(d as nat)),
{
    let c = match d {
        0 => '0',
        1 => '1',
        2 => '2',
        3 => '3',
        4 => '4',
        5 => '5',
        6 => '6',
        7 => '7',
        8 => '8',
        _ => '9',
    };
    out.push(c);
}

fn push_digits(out: &mut String, n: u32)
    ensures
        final(out)@ == old(out)@ + digits(n as nat),
    decreases n,
{
    if n >= 10 {
        push_digits(out, n / 10);
    }
    push_digit(out, n % 10);
    assert(final(out)@ =~= old(out)@ + digits(n as nat));
}

fn push_str(out: &mut String, s: &str)
    ensures
        final(out)@ == old(out)@ + s@,
{
    let n = s.unicode_len();
    let mut i: usize = 0;
    while i < n
        invariant
            n == s@.len(),
            i <= n,
            out@ == old(out)@ + s@.subrange(0, i as int),
        decreases n - i,
    {
        out.push(s.get_char(i));
        assert(s@.subrange(0, i + 1) =~= s@.subrange(0, i as int).push(s@[i as int]));
        i += 1;
    }
    assert(s@.subrange(0, n as int) =~= s@);
}

impl LoxError {
    /// A diagnostic on line `l` with the given message and no place.
    pub fn new(l: i32, message: &str) -> (e: Self)
        ensures
            e@ == (ErrorView { line: l, place: None, message: Some(message@) }),
    {
        LoxError { line: l, place: None, message: Some(message.to_owned()) }
    }

    /// The diagnostic as a reader sees it: `[<line>] Error <place>: <message>`.
    pub fn report(&self) -> (r: String)
        ensures
            r@ == report_text(self@),
    {
        let mut out = String::new();
        push_str(&mut out, "[");
        if self.line < 0 {
            push_str(&mut out, "-");
            push_digits(&mut out, (-(self.line as i64)) as u32);
        } else {
            push_digits(&mut out, self.line as u32);
        }
        assert(out@ =~= "["@ + decimal_text(self.line as int));
        push_str(&mut out, "] Error ");
        match &self.place {
            Some(p) => push_str(&mut out, p.as_str()),
            None => push_str(&mut out, "?"),
        }
        let ghost place = match self@.place {
            Some(p) => p,
            None => "?"@,
        };
        assert(out@ =~= "["@ + decimal_text(self.line as int) + "] Error "@ + place);
        push_str(&mut out, ": ");
        match &self.message {
            Some(m) => push_str(&mut out, m.as_str()),
            None => push_str(&mut out, "No message"),
        }
        assert(out@ =~= report_text(self@));
        out
    }
}

} // verus!
