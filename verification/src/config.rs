use vstd::prelude::*;
use vstd::string::*;

verus! {

/// A named collection of raster files at one resolution tier. Immutable once
/// loaded; may back multiple index entries (one per discovered file). A higher
/// `resolution` value is preferred when several sources cover a point.
#[derive(Debug, Clone)]
pub struct Source {
    pub id: String,
    pub name: String,
    pub path: String,
    pub resolution: usize,
    pub link: Option<String>,
    pub attributions: Option<String>,
}

/// Process configuration: where to listen, how large the cache is, and which
/// sources to load at startup.
#[derive(Debug, Clone)]
pub struct Config {
    pub host: String,
    pub port: u16,
    pub cache_size: usize,
    pub sources: Vec<Source>,
}

/// Returns a new config with default values.
pub fn new() -> (c: Config)
    ensures
        c.host@ == "127.0.0.1"@,
        c.port == 50051,
        c.cache_size == 10_000_000,
        c.sources@ == Seq::<Source>::empty(),
{
    Config {
        host: String::from_str("127.0.0.1"),
        port: 50051,
        cache_size: 10_000_000,
        sources: Vec::new(),
    }
}

/// The character for one decimal digit value.
pub open spec fn decimal_digit(d: int) -> char
    recommends
        0 <= d < 10,
{
    if d == 0 {
        '0'
    } else if d == 1 {
        '1'
    } else if d == 2 {
        '2'
    } else if d == 3 {
        '3'
    } else if d == 4 {
        '4'
    } else if d == 5 {
        '5'
    } else if d == 6 {
        '6'
    } else if d == 7 {
        '7'
    } else if d == 8 {
        '8'
    } else {
        '9'
    }
}

/// The decimal rendering of a non-negative integer, most significant digit
/// first, without leading zeros (a lone zero for 0).
pub open spec fn decimal_seq(n: int) -> Seq<char>
    recommends
        n >= 0,
    decreases n,
{
    if n < 10 {
        seq![decimal_digit(n)]
    } else {
        decimal_seq(n / 10).push(decimal_digit(n % 10))
    }
}

/// Appends the decimal rendering of `n` to `s`.
fn push_decimal(s: &mut String, n: u16)
    ensures
        final(s)@ == old(s)@ + decimal_seq(n as int),
    decreases n,
{
    if n >= 10 {
        push_decimal(s, n / 10);
    }
    let d: u16 = n % 10;
    let digit: &str = match d {
        0 => "0",
        1 => "1",
        2 => "2",
        3 => "3",
        4 => "4",
        5 => "5",
        6 => "6",
        7 => "7",
        8 => "8",
        _ => "9",
    };
    proof {
        reveal_strlit("0");
        reveal_strlit("1");
        reveal_strlit("2");
        reveal_strlit("3");
        reveal_strlit("4");
        reveal_strlit("5");
        reveal_strlit("6");
        reveal_strlit("7");
        reveal_strlit("8");
        reveal_strlit("9");
        assert(digit@ =~= seq![decimal_digit(d as int)]);
    }
    s.append(digit);
    proof {
        assert(s@ =~= old(s)@ + decimal_seq(n as int));
    }
}

impl Config {
    /// The listen address: the host, a colon, and the port in decimal.
    pub fn host(&self) -> (r: String)
        ensures
            r@ == self.host@ + seq![':'] + decimal_seq(self.port as int),
    {
        let mut r = self.host.clone();
        r.append(":");
        push_decimal(&mut r, self.port);
        proof {
            reveal_strlit(":");
            assert(r@ =~= self.host@ + seq![':'] + decimal_seq(self.port as int));
        }
        r
    }
}

} // verus!
