use vstd::prelude::*;

use crate::rime::text::{dec_digits, decimal_u64, digit_char, digit_of, push_all, string_of};

verus! {

/// A grammar model file (`*.gram`) in the user directory.
pub struct GrammarModel {
    pub filename: String,
    pub file_path: String,
    pub file_size: i64,
    pub display_name: String,
    pub formatted_size: String,
}

/// The grammar settings of a schema's custom file.
pub struct SchemaGrammarConfig {
    pub schema_id: String,
    pub mounted_model: Option<String>,
    pub collocation_max_length: i64,
    pub collocation_min_length: i64,
    pub collocation_penalty: i64,
    pub non_collocation_penalty: i64,
    pub weak_collocation_penalty: i64,
    pub rear_penalty: i64,
    pub contextual_suggestions: bool,
    pub max_homophones: i64,
    pub max_homographs: i64,
}

/// The defaults of the grammar settings (every field but the schema id).
pub open spec fn has_grammar_defaults(c: SchemaGrammarConfig) -> bool {
    &&& c.mounted_model is None
    &&& c.collocation_max_length == 5
    &&& c.collocation_min_length == 2
    &&& c.collocation_penalty == -16
    &&& c.non_collocation_penalty == -8
    &&& c.weak_collocation_penalty == -100
    &&& c.rear_penalty == -20
    &&& c.contextual_suggestions
    &&& c.max_homophones == 7
    &&& c.max_homographs == 7
}

impl Default for SchemaGrammarConfig {
    fn default() -> (c: Self)
        ensures
            c.schema_id@ == Seq::<char>::empty(),
            has_grammar_defaults(c),
    {
        SchemaGrammarConfig {
            schema_id: String::new(),
            mounted_model: None,
            collocation_max_length: 5,
            collocation_min_length: 2,
            collocation_penalty: -16,
            non_collocation_penalty: -8,
            weak_collocation_penalty: -100,
            rear_penalty: -20,
            contextual_suggestions: true,
            max_homophones: 7,
            max_homographs: 7,
        }
    }
}

impl SchemaGrammarConfig {
    /// The default grammar settings of a schema.
    pub fn default_for(schema_id: &str) -> (c: Self)
        ensures
            c.schema_id@ == schema_id@,
            has_grammar_defaults(c),
    {
        let mut c = SchemaGrammarConfig::default();
        c.schema_id = schema_id.to_string();
        c
    }
}

// ---------------------------------------------------------------------------
// Sizes for people
// ---------------------------------------------------------------------------

/// `a / d` rounded to the nearest integer, a half to the even one.
pub open spec fn round_half_even(a: nat, d: nat) -> nat
    recommends
        d > 0,
{
    let q = a / d;
    let r = a % d;
    if 2 * r < d {
        q
    } else if 2 * r > d {
        q + 1
    } else if q % 2 == 0 {
        q
    } else {
        q + 1
    }
}

/// The spacing of doubles around `n`: 1 below 2^53, doubling with each bit.
pub open spec fn double_spacing(n: nat) -> nat
    decreases n,
{
    if n < 0x20_0000_0000_0000 {
        1
    } else {
        2 * double_spacing(n / 2)
    }
}

/// `n as f64` for a non-negative integer: the nearest double, a tie going to
/// the even one.
pub open spec fn to_double(n: nat) -> nat {
    let u = double_spacing(n);
    round_half_even(n, u) * u
}

/// A count of tenths written with one decimal (`{:.1}`).
pub open spec fn tenths_text(t: nat) -> Seq<char> {
    dec_digits(t / 10) + seq!['.', digit_char((t % 10) as int)]
}

/// An integer in decimal, with a minus sign when negative.
pub open spec fn int_text(i: int) -> Seq<char> {
    if i < 0 {
        seq!['-'] + dec_digits((-i) as nat)
    } else {
        dec_digits(i as nat)
    }
}

/// A size in bytes as shown: bytes below 1 KB, else KB, MB or GB with one
/// decimal, computed as the double quotient `bytes as f64 / unit as f64`
/// and formatted with `{:.1}` (the exact binary value rounded to tenths, a
/// half to even).
pub open spec fn size_text(bytes: i64) -> Seq<char> {
    if bytes >= 0x4000_0000 {
        tenths_text(round_half_even(to_double(bytes as nat) * 10, 0x4000_0000)) + " GB"@
    } else if bytes >= 0x10_0000 {
        tenths_text(round_half_even(bytes as nat * 10, 0x10_0000)) + " MB"@
    } else if bytes >= 0x400 {
        tenths_text(round_half_even(bytes as nat * 10, 0x400)) + " KB"@
    } else {
        int_text(bytes as int) + " B"@
    }
}

fn round_half_even_u128(a: u128, d: u128) -> (r: u128)
    requires
        d > 0,
        a / d < u128::MAX,
    ensures
        r == round_half_even(a as nat, d as nat),
{
    let q = a / d;
    let r = a % d;
    if r < d - r {
        q
    } else if r > d - r {
        q + 1
    } else if q % 2 == 0 {
        q
    } else {
        q + 1
    }
}

proof fn lemma_spacing_bound(n: nat)
    ensures
        1 <= double_spacing(n),
        n < 0x20_0000_0000_0000 ==> double_spacing(n) == 1,
    decreases n,
{
    if n >= 0x20_0000_0000_0000 {
        lemma_spacing_bound(n / 2);
    }
}

/// `n as f64`, as the integer the double holds.
fn to_double_u64(n: u64) -> (r: u128)
    requires
        n < 0x8000_0000_0000_0000,
    ensures
        r == to_double(n as nat),
        r <= n + 2048,
{
    let mut u: u128 = 1;
    let mut t: u64 = n;
    while t >= 0x20_0000_0000_0000
        invariant
            double_spacing(n as nat) == u * double_spacing(t as nat),
            1 <= u < 0x800,
            t as int == n as int / u as int,
            n < 0x8000_0000_0000_0000,
        decreases t,
    {
        assert(double_spacing(t as nat) == 2 * double_spacing((t / 2) as nat));
        assert(u * double_spacing(t as nat) == (u * 2) * double_spacing((t / 2) as nat)) by (nonlinear_arith)
            requires
                double_spacing(t as nat) == 2 * double_spacing((t / 2) as nat),
        ;
        assert(t as int * u as int <= n as int) by (nonlinear_arith)
            requires
                t as int == n as int / u as int,
                u >= 1,
        ;
        assert(u < 0x400) by (nonlinear_arith)
            requires
                t as int * u as int <= n as int,
                t >= 0x20_0000_0000_0000,
                n < 0x8000_0000_0000_0000,
                u >= 1,
        ;
        proof {
            vstd::arithmetic::div_mod::lemma_div_denominator(n as int, u as int, 2);
        }
        t = t / 2;
        u = u * 2;
    }
    proof {
        lemma_spacing_bound(t as nat);
        assert(double_spacing(t as nat) == 1);
        assert(u * double_spacing(t as nat) == u) by (nonlinear_arith)
            requires
                double_spacing(t as nat) == 1,
        ;
        assert(u == double_spacing(n as nat));
    }
    let q = round_half_even_u128(n as u128, u);
    assert(q * u <= n + 2048) by (nonlinear_arith)
        requires
            q <= n as int / u as int + 1,
            1 <= u < 0x800,
    {
        assert((n as int / u as int) * u <= n) by (nonlinear_arith)
            requires
                u >= 1,
        ;
    }
    q * u
}

fn tenths_chars(t: u128) -> (r: Vec<char>)
    requires
        t / 10 <= u64::MAX,
    ensures
        r@ == tenths_text(t as nat),
{
    let mut r = decimal_u64((t / 10) as u64);
    r.push('.');
    r.push(digit_of((t % 10) as u64));
    assert(r@ =~= tenths_text(t as nat));
    r
}

pub(crate) fn int_chars(i: i64) -> (r: Vec<char>)
    ensures
        r@ == int_text(i as int),
{
    if i < 0 {
        let mag: u64 = ((-(i + 1)) as u64) + 1;
        let mut r: Vec<char> = Vec::new();
        r.push('-');
        let d = decimal_u64(mag);
        push_all(&mut r, d.as_slice());
        assert(r@ =~= int_text(i as int));
        r
    } else {
        decimal_u64(i as u64)
    }
}

/// A size in bytes as shown to people (`B`, `KB`, `MB` or `GB`).
pub fn format_bytes(bytes: i64) -> (r: String)
    ensures
        r@ == size_text(bytes),
{
    proof {
        reveal_strlit(" GB");
        reveal_strlit(" MB");
        reveal_strlit(" KB");
        reveal_strlit(" B");
    }
    let mut cs: Vec<char>;
    if bytes >= 0x4000_0000 {
        let d = to_double_u64(bytes as u64);
        let t = round_half_even_u128(d * 10, 0x4000_0000);
        cs = tenths_chars(t);
        cs.push(' ');
        cs.push('G');
        cs.push('B');
    } else if bytes >= 0x10_0000 {
        let t = round_half_even_u128(bytes as u128 * 10, 0x10_0000);
        cs = tenths_chars(t);
        cs.push(' ');
        cs.push('M');
        cs.push('B');
    } else if bytes >= 0x400 {
        let t = round_half_even_u128(bytes as u128 * 10, 0x400);
        cs = tenths_chars(t);
        cs.push(' ');
        cs.push('K');
        cs.push('B');
    } else {
        cs = int_chars(bytes);
        cs.push(' ');
        cs.push('B');
    }
    assert(cs@ =~= size_text(bytes));
    string_of(cs.as_slice())
}

impl GrammarModel {
    /// A model found in the user directory: it is shown by its file name,
    /// with its size formatted.
    pub fn new(filename: String, file_path: String, file_size: i64) -> (m: Self)
        ensures
            m.filename@ == filename@,
            m.file_path@ == file_path@,
            m.file_size == file_size,
            m.display_name@ == filename@,
            m.formatted_size@ == size_text(file_size),
    {
        let display_name = filename.clone();
        let formatted_size = format_bytes(file_size);
        GrammarModel { filename, file_path, file_size, display_name, formatted_size }
    }
}

} // verus!
