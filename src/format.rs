use crate::quantity::ResourceValue;
use vstd::prelude::*;

verus! {

pub open spec fn digit_char(d: int) -> char {
    if d == 0 {
        '0'
    } else if d == 1 {
        '1'
    } else if d == 2 {
        '2'
    } else if d == 3 {
        '3'
    } else if d == 4 {
        '4'
    } else if d == 5 {
        '5'
    } else if d == 6 {
        '6'
    } else if d == 7 {
        '7'
    } else if d == 8 {
        '8'
    } else {
        '9'
    }
}

/// The decimal digits of `n`, without leading zeros.
pub open spec fn nat_text(n: nat) -> Seq<char>
    decreases n,
{
    if n < 10 {
        seq![digit_char(n as int)]
    } else {
        nat_text(n / 10).push(digit_char((n % 10) as int))
    }
}

/// `v` in decimal, with a leading `-` when it is negative.
pub open spec fn int_text(v: int) -> Seq<char> {
    if v < 0 {
        seq!['-'] + nat_text((-v) as nat)
    } else {
        nat_text(v as nat)
    }
}

/// `v / d` in tenths, to the nearest tenth; a value halfway between two
/// tenths goes to the even one.
pub open spec fn tenths(v: int, d: int) -> int {
    let q = (10 * v) / d;
    let r = (10 * v) % d;
    if 2 * r > d || (2 * r == d && q % 2 == 1) {
        q + 1
    } else {
        q
    }
}

/// `v / d` as a whole number when `d` divides `v`, else with one decimal
/// place (see `tenths`).
pub open spec fn scaled_text(v: int, d: int) -> Seq<char> {
    if v % d == 0 {
        int_text(v / d)
    } else {
        let t = tenths(v, d);
        int_text(t / 10) + seq!['.', digit_char(t % 10)]
    }
}

/// How a CPU amount in millicores is shown: nothing for zero, cores from
/// 1000 up, else millicores with an `m`.
pub open spec fn cpu_text(v: int) -> Seq<char> {
    if v == 0 {
        seq![]
    } else if v >= 1000 {
        scaled_text(v, 1000)
    } else {
        int_text(v) + seq!['m']
    }
}

/// How a memory amount in bytes is shown: nothing for zero, else in the
/// largest of Gi, Mi and Ki that it reaches, else in bytes with a `B`.
pub open spec fn memory_text(v: int) -> Seq<char> {
    if v == 0 {
        seq![]
    } else if v >= 1073741824 {
        scaled_text(v, 1073741824) + seq!['G', 'i']
    } else if v >= 1048576 {
        scaled_text(v, 1048576) + seq!['M', 'i']
    } else if v >= 1024 {
        scaled_text(v, 1024) + seq!['K', 'i']
    } else {
        int_text(v) + seq!['B']
    }
}

fn digit_str(d: u64) -> (r: &'static str)
    requires
        d < 10,
    ensures
        r@ == seq![digit_char(d as int)],
{
    proof {
        reveal_strlit("0");
        reveal_strlit("1");
        reveal_strlit("2");
        reveal_strlit("3");
        reveal_strlit("4");
        reveal_strlit("5");
        reveal_strlit("6");
        reveal_strlit("7");
        reveal_strlit("8");
        reveal_strlit("9");
    }
    let r = match d {
        0 => "0",
        1 => "1",
        2 => "2",
        3 => "3",
        4 => "4",
        5 => "5",
        6 => "6",
        7 => "7",
        8 => "8",
        _ => "9",
    };
    assert(r@ =~= seq![digit_char(d as int)]);
    r
}

fn unsigned_text(n: u64) -> (r: String)
    ensures
        r@ == nat_text(n as nat),
    decreases n,
{
    if n < 10 {
        digit_str(n).to_owned()
    } else {
        let mut r = unsigned_text(n / 10);
        r.append(digit_str(n % 10));
        r
    }
}

fn signed_text(v: i64) -> (r: String)
    ensures
        r@ == int_text(v as int),
{
    if v < 0 {
        let magnitude = (-(v as i128)) as u64;
        let mut r = "-".to_owned();
        proof {
            reveal_strlit("-");
        }
        r.append(unsigned_text(magnitude).as_str());
        assert(r@ =~= int_text(v as int));
        r
    } else {
        unsigned_text(v as u64)
    }
}

fn scaled(v: i64, d: i64) -> (r: String)
    requires
        v >= d >= 1000,
    ensures
        r@ == scaled_text(v as int, d as int),
{
    if v % d == 0 {
        return signed_text(v / d);
    }
    let ten_v = (v as u128) * 10;
    let q = ten_v / (d as u128);
    let rem = ten_v % (d as u128);
    let t = if 2 * rem > d as u128 || (2 * rem == d as u128 && q % 2 == 1) {
        q + 1
    } else {
        q
    };
    assert(t == tenths(v as int, d as int));
    assert(q <= ten_v) by (nonlinear_arith)
        requires
            q == ten_v / (d as u128),
            d >= 1000,
    ;
    let mut r = unsigned_text((t / 10) as u64);
    proof {
        reveal_strlit(".");
    }
    r.append(".");
    r.append(digit_str((t % 10) as u64));
    assert(r@ =~= scaled_text(v as int, d as int));
    r
}

/// Shows a CPU amount: `""` for zero, `"1"` for 1000, `"1.5"` for 1500,
/// `"500m"` for 500. Tenths are rounded to the nearest, ties to even.
pub fn format_cpu(cpu: ResourceValue) -> (r: String)
    ensures
        r@ == cpu_text(cpu.0 as int),
{
    let value = cpu.as_millicores();
    if value == 0 {
        String::new()
    } else if value >= 1000 {
        scaled(value, 1000)
    } else {
        let mut r = signed_text(value);
        proof {
            reveal_strlit("m");
        }
        r.append("m");
        r
    }
}

/// Shows a memory amount: `""` for zero, `"1Gi"` for 1024³, `"1.5Ki"` for
/// 1536, `"512B"` for 512. Tenths are rounded to the nearest, ties to even.
pub fn format_memory(memory: ResourceValue) -> (r: String)
    ensures
        r@ == memory_text(memory.0 as int),
{
    let bytes = memory.as_bytes();
    proof {
        reveal_strlit("Gi");
        reveal_strlit("Mi");
        reveal_strlit("Ki");
        reveal_strlit("B");
    }
    if bytes == 0 {
        String::new()
    } else if bytes >= 1073741824 {
        let mut r = scaled(bytes, 1073741824);
        r.append("Gi");
        r
    } else if bytes >= 1048576 {
        let mut r = scaled(bytes, 1048576);
        r.append("Mi");
        r
    } else if bytes >= 1024 {
        let mut r = scaled(bytes, 1024);
        r.append("Ki");
        r
    } else {
        let mut r = signed_text(bytes);
        r.append("B");
        r
    }
}

} // verus!
