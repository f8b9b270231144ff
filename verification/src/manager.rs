//! Artifact identity and the build driver's text formats.
//!
//! An `STLInstance` describes one requested artifact: the model and
//! part it comes from and the ordered parameter assignment. From these
//! it derives the canonical artifact key and the compiler command
//! text, both pure functions of the values. The bounds extractor scans
//! produced artifact text for `vertex` lines and folds their
//! coordinates into a bounding box pinned to the origin.

use vstd::prelude::*;

use crate::decimal::{
    lemma_pow10_pos, pow10, spec_dec_le, spec_dec_lt, spec_dec_str, spec_parse_decimal, Decimal,
};
use crate::text::{
    chars_eq_str, push_i64_str, spec_i64_str, spec_split, split_char, str_to_chars, subvec,
};

verus! {

/// One parameter value for a generate request.
pub enum ParamType {
    BoolParam(bool),
    IntParam(i64),
    FloatParam(Decimal),
    StringParam(String),
}

/// One requested artifact: its origin and parameter assignment, and
/// the compiler command once generated.
pub struct STLInstance {
    pub model_id: i64,
    pub part_id: i64,
    pub parameters: Vec<(String, ParamType)>,
    pub command_string: String,
}

/// The canonical rendering of one parameter value.
pub open spec fn spec_value_str(p: ParamType) -> Seq<char> {
    match p {
        ParamType::BoolParam(b) => if b {
            "true"@
        } else {
            "false"@
        },
        ParamType::IntParam(i) => spec_i64_str(i as int),
        ParamType::FloatParam(d) => spec_dec_str(d),
        ParamType::StringParam(s) => s@,
    }
}

/// Every fractional parameter value is a well-formed decimal.
pub open spec fn params_wf(ps: Seq<(String, ParamType)>) -> bool {
    forall|i: int|
        0 <= i < ps.len() ==> ((#[trigger] ps[i]).1 matches ParamType::FloatParam(d) ==> d.wf())
}

/// Parameter values joined by `-`.
pub open spec fn spec_value_list(ps: Seq<ParamType>) -> Seq<char>
    decreases ps.len(),
{
    if ps.len() == 0 {
        Seq::empty()
    } else if ps.len() == 1 {
        spec_value_str(ps[0])
    } else {
        spec_value_list(ps.drop_last()) + seq!['-'] + spec_value_str(ps.last())
    }
}

/// The values of an ordered parameter assignment.
pub open spec fn spec_values(ps: Seq<(String, ParamType)>) -> Seq<ParamType> {
    ps.map_values(|t: (String, ParamType)| t.1)
}

/// The canonical artifact key for a parameter assignment.
pub open spec fn spec_identifier(model_id: int, part_id: int, values: Seq<ParamType>) -> Seq<
    char,
> {
    "stls/"@ + spec_i64_str(model_id) + seq!['-'] + spec_i64_str(part_id) + seq!['_']
        + spec_value_list(values) + ".stl"@
}

/// `name=value` pairs joined by `, `.
pub open spec fn spec_pair_list(ps: Seq<(String, ParamType)>) -> Seq<char>
    decreases ps.len(),
{
    if ps.len() == 0 {
        Seq::empty()
    } else if ps.len() == 1 {
        ps[0].0@ + seq!['='] + spec_value_str(ps[0].1)
    } else {
        spec_pair_list(ps.drop_last()) + ", "@ + ps.last().0@ + seq!['='] + spec_value_str(
            ps.last().1,
        )
    }
}

/// The command text piped to the compiler: bring the script into
/// scope, then call the part on the assignment.
pub open spec fn spec_command(
    part_name: Seq<char>,
    scad_path: Seq<char>,
    ps: Seq<(String, ParamType)>,
) -> Seq<char> {
    "use <"@ + scad_path + ">;"@ + part_name + seq!['('] + spec_pair_list(ps) + ");"@
}

/// Append the canonical rendering of one value to `out`.
fn push_value_str(p: &ParamType, out: &mut String)
    requires
        *p matches ParamType::FloatParam(d) ==> d.wf(),
    ensures
        final(out)@ == old(out)@ + spec_value_str(*p),
{
    match p {
        ParamType::BoolParam(b) => {
            proof {
                reveal_strlit("true");
                reveal_strlit("false");
            }
            if *b {
                out.append("true");
            } else {
                out.append("false");
            }
        },
        ParamType::IntParam(i) => {
            push_i64_str(*i, out);
        },
        ParamType::FloatParam(d) => {
            d.push_str_to(out);
        },
        ParamType::StringParam(s) => {
            out.append(s.as_str());
        },
    }
}

impl STLInstance {
    /// The artifact key this instance derives, a pure function of the
    /// model, the part, and the ordered parameter values.
    pub fn get_identifier(&self) -> (r: String)
        requires
            params_wf(self.parameters@),
        ensures
            r@ == spec_identifier(
                self.model_id as int,
                self.part_id as int,
                spec_values(self.parameters@),
            ),
    {
        proof {
            reveal_strlit("stls/");
            reveal_strlit("-");
            reveal_strlit("_");
            reveal_strlit(".stl");
        }
        let mut out = String::new();
        out.append("stls/");
        push_i64_str(self.model_id, &mut out);
        out.append("-");
        push_i64_str(self.part_id, &mut out);
        out.append("_");
        let ghost values = spec_values(self.parameters@);
        let ghost prefix = out@;
        let mut i: usize = 0;
        while i < self.parameters.len()
            invariant
                i <= self.parameters@.len(),
                params_wf(self.parameters@),
                values == spec_values(self.parameters@),
                out@ == prefix + spec_value_list(values.take(i as int)),
            decreases self.parameters@.len() - i,
        {
            proof {
                assert(values.take((i + 1) as int).drop_last() =~= values.take(i as int));
                assert(values.take((i + 1) as int).last() == values[i as int]);
                assert(values[i as int] == self.parameters@[i as int].1);
            }
            if i > 0 {
                proof {
                    reveal_strlit("-");
                }
                out.append("-");
            }
            push_value_str(&self.parameters[i].1, &mut out);
            proof {
                assert(out@ =~= prefix + spec_value_list(values.take((i + 1) as int)));
            }
            i = i + 1;
        }
        proof {
            assert(values.take(values.len() as int) =~= values);
        }
        out.append(".stl");
        proof {
            assert(out@ =~= spec_identifier(
                self.model_id as int,
                self.part_id as int,
                values,
            ));
        }
        out
    }

    /// Generate and store the compiler command text for this
    /// assignment against the given part and script.
    pub fn gen_command_string(&mut self, part_name: String, scad_path: String)
        requires
            old(self).parameters@.len() > 0,
            params_wf(old(self).parameters@),
        ensures
            final(self).command_string@ == spec_command(
                part_name@,
                scad_path@,
                old(self).parameters@,
            ),
            final(self).model_id == old(self).model_id,
            final(self).part_id == old(self).part_id,
            final(self).parameters == old(self).parameters,
    {
        proof {
            reveal_strlit("use <");
            reveal_strlit(">;");
            reveal_strlit("(");
            reveal_strlit(", ");
            reveal_strlit("=");
            reveal_strlit(");");
        }
        let mut out = String::new();
        out.append("use <");
        out.append(scad_path.as_str());
        out.append(">;");
        out.append(part_name.as_str());
        out.append("(");
        let ghost ps = self.parameters@;
        let ghost prefix = out@;
        let mut i: usize = 0;
        while i < self.parameters.len()
            invariant
                i <= self.parameters@.len(),
                self.parameters@ == ps,
                params_wf(ps),
                out@ == prefix + spec_pair_list(ps.take(i as int)),
            decreases self.parameters@.len() - i,
        {
            proof {
                assert(ps.take((i + 1) as int).drop_last() =~= ps.take(i as int));
                assert(ps.take((i + 1) as int).last() == ps[i as int]);
            }
            if i > 0 {
                proof {
                    reveal_strlit(", ");
                }
                out.append(", ");
            }
            proof {
                reveal_strlit("=");
            }
            out.append(self.parameters[i].0.as_str());
            out.append("=");
            push_value_str(&self.parameters[i].1, &mut out);
            proof {
                assert(out@ =~= prefix + spec_pair_list(ps.take((i + 1) as int)));
            }
            i = i + 1;
        }
        proof {
            assert(ps.take(ps.len() as int) =~= ps);
        }
        out.append(");");
        proof {
            assert(out@ =~= spec_command(part_name@, scad_path@, ps));
        }
        self.command_string = out;
    }
}

/// The artifact key depends only on the model, the part and the
/// ordered parameter values: two instances that agree on those derive
/// the same key.
pub proof fn lemma_identifier_pure(a: STLInstance, b: STLInstance)
    requires
        a.model_id == b.model_id,
        a.part_id == b.part_id,
        spec_values(a.parameters@) == spec_values(b.parameters@),
    ensures
        spec_identifier(a.model_id as int, a.part_id as int, spec_values(a.parameters@))
            == spec_identifier(b.model_id as int, b.part_id as int, spec_values(b.parameters@)),
{
}

/// A bounding box over the artifact's vertices, pinned to the origin:
/// every minimum starts at zero and only decreases, every maximum
/// starts at zero and only increases.
pub struct Bounds {
    pub min_x: Decimal,
    pub max_x: Decimal,
    pub min_y: Decimal,
    pub max_y: Decimal,
    pub min_z: Decimal,
    pub max_z: Decimal,
}

/// The zero decimal.
pub open spec fn dec_zero() -> Decimal {
    Decimal { mantissa: 0, scale: 0 }
}

/// Well-formed bounds: every corner a well-formed decimal, minima at
/// most zero, maxima at least zero.
pub open spec fn bounds_wf(b: Bounds) -> bool {
    &&& b.min_x.wf() && b.max_x.wf() && b.min_y.wf() && b.max_y.wf() && b.min_z.wf()
        && b.max_z.wf()
    &&& b.min_x.mantissa <= 0 && b.min_y.mantissa <= 0 && b.min_z.mantissa <= 0
    &&& b.max_x.mantissa >= 0 && b.max_y.mantissa >= 0 && b.max_z.mantissa >= 0
}

/// Whitespace that may precede a `vertex` keyword.
pub open spec fn spec_is_ws(c: char) -> bool {
    c == ' ' || c == '\t' || c == '\r'
}

/// `s` without its leading whitespace.
pub open spec fn spec_trim_start(s: Seq<char>) -> Seq<char>
    decreases s.len(),
{
    if s.len() > 0 && spec_is_ws(s[0]) {
        spec_trim_start(s.drop_first())
    } else {
        s
    }
}

/// One axis folded with a coordinate, as the scan does: a new minimum
/// displaces the minimum, otherwise a new maximum displaces the
/// maximum.
pub open spec fn spec_fold_axis(mn: Decimal, mx: Decimal, x: Decimal) -> (Decimal, Decimal) {
    if spec_dec_lt(x, mn) {
        (x, mx)
    } else if spec_dec_lt(mx, x) {
        (mn, x)
    } else {
        (mn, mx)
    }
}

/// One line folded into the bounds: a line whose first token after
/// leading whitespace is `vertex` must carry three parseable
/// coordinates; any other line is ignored.
pub open spec fn spec_scan_line(b: Bounds, line: Seq<char>) -> Option<Bounds> {
    let toks = spec_split(spec_trim_start(line), ' ');
    if toks.len() == 0 || toks[0] != "vertex"@ {
        Some(b)
    } else if toks.len() < 4 {
        None
    } else {
        match (spec_parse_decimal(toks[1]), spec_parse_decimal(toks[2]), spec_parse_decimal(
            toks[3],
        )) {
            (Some(x), Some(y), Some(z)) => Some(
                Bounds {
                    min_x: spec_fold_axis(b.min_x, b.max_x, x).0,
                    max_x: spec_fold_axis(b.min_x, b.max_x, x).1,
                    min_y: spec_fold_axis(b.min_y, b.max_y, y).0,
                    max_y: spec_fold_axis(b.min_y, b.max_y, y).1,
                    min_z: spec_fold_axis(b.min_z, b.max_z, z).0,
                    max_z: spec_fold_axis(b.min_z, b.max_z, z).1,
                },
            ),
            _ => None,
        }
    }
}

/// All lines folded in order.
pub open spec fn spec_scan(b: Bounds, lines: Seq<Seq<char>>) -> Option<Bounds>
    decreases lines.len(),
{
    if lines.len() == 0 {
        Some(b)
    } else {
        match spec_scan(b, lines.drop_last()) {
            None => None,
            Some(b2) => spec_scan_line(b2, lines.last()),
        }
    }
}

/// The bounding box of the artifact text: its lines scanned from
/// all-zero bounds.
pub open spec fn spec_extract(text: Seq<char>) -> Option<Bounds> {
    spec_scan(
        Bounds {
            min_x: dec_zero(),
            max_x: dec_zero(),
            min_y: dec_zero(),
            max_y: dec_zero(),
            min_z: dec_zero(),
            max_z: dec_zero(),
        },
        spec_split(text, '\n'),
    )
}

/// A scan that has failed by some prefix fails as a whole.
proof fn lemma_scan_none(b0: Bounds, lines: Seq<Seq<char>>, j: int)
    requires
        0 <= j <= lines.len(),
        spec_scan(b0, lines.take(j)) is None,
    ensures
        spec_scan(b0, lines) is None,
    decreases lines.len() - j,
{
    if j < lines.len() {
        assert(lines.take(j + 1).drop_last() =~= lines.take(j));
        lemma_scan_none(b0, lines, j + 1);
    } else {
        assert(lines.take(j) =~= lines);
    }
}

/// Leading whitespace removal is the suffix from the first
/// non-whitespace position.
proof fn lemma_trim_skip(s: Seq<char>, k: int)
    requires
        0 <= k <= s.len(),
        forall|j: int| 0 <= j < k ==> spec_is_ws(#[trigger] s[j]),
        k == s.len() || !spec_is_ws(s[k]),
    ensures
        spec_trim_start(s) == s.skip(k),
    decreases k,
{
    if k > 0 {
        let rest = s.drop_first();
        assert forall|j: int| 0 <= j < k - 1 implies spec_is_ws(#[trigger] rest[j]) by {
            assert(rest[j] == s[j + 1]);
        }
        if k - 1 < rest.len() {
            assert(rest[k - 1] == s[k]);
        }
        lemma_trim_skip(rest, k - 1);
        assert(rest.skip(k - 1) =~= s.skip(k));
    } else {
        assert(s.skip(0) =~= s);
    }
}

/// `v` without its leading whitespace.
fn trim_start_chars(v: &Vec<char>) -> (r: Vec<char>)
    ensures
        r@ == spec_trim_start(v@),
{
    let mut k: usize = 0;
    while k < v.len() && (v[k] == ' ' || v[k] == '\t' || v[k] == '\r')
        invariant
            k <= v@.len(),
            forall|j: int| 0 <= j < k ==> spec_is_ws(#[trigger] v@[j]),
        decreases v@.len() - k,
    {
        k = k + 1;
    }
    proof {
        lemma_trim_skip(v@, k as int);
        assert(v@.skip(k as int) =~= v@.subrange(k as int, v@.len() as int));
    }
    subvec(v, k, v.len())
}

/// Fold one coordinate into one axis, keeping the minimum at most
/// zero and the maximum at least zero.
fn fold_axis(mn: Decimal, mx: Decimal, x: Decimal) -> (r: (Decimal, Decimal))
    requires
        mn.wf(),
        mx.wf(),
        x.wf(),
        mn.mantissa <= 0,
        mx.mantissa >= 0,
    ensures
        r.0.wf(),
        r.1.wf(),
        r.0.mantissa <= 0,
        r.1.mantissa >= 0,
        r == spec_fold_axis(mn, mx, x),
{
    if x.num_lt(&mn) {
        proof {
            lemma_pow10_pos(mn.scale as nat);
            lemma_pow10_pos(x.scale as nat);
            let xm = x.mantissa as int;
            let mm = mn.mantissa as int;
            let px = pow10(x.scale as nat) as int;
            let pm = pow10(mn.scale as nat) as int;
            assert(mm * px <= 0) by (nonlinear_arith)
                requires
                    mm <= 0,
                    px >= 1,
            ;
            assert(xm <= 0) by (nonlinear_arith)
                requires
                    xm * pm < mm * px,
                    mm * px <= 0,
                    pm >= 1,
            ;
        }
        (x, mx)
    } else if mx.num_lt(&x) {
        proof {
            lemma_pow10_pos(mx.scale as nat);
            lemma_pow10_pos(x.scale as nat);
            let xm = x.mantissa as int;
            let mm = mx.mantissa as int;
            let px = pow10(x.scale as nat) as int;
            let pm = pow10(mx.scale as nat) as int;
            assert(mm * px >= 0) by (nonlinear_arith)
                requires
                    mm >= 0,
                    px >= 1,
            ;
            assert(xm >= 0) by (nonlinear_arith)
                requires
                    mm * px < xm * pm,
                    mm * px >= 0,
                    pm >= 1,
            ;
        }
        (mn, x)
    } else {
        (mn, mx)
    }
}

/// A minimum pinned at or below zero never exceeds a maximum pinned
/// at or above zero.
pub proof fn lemma_bounds_ordered(mn: Decimal, mx: Decimal)
    requires
        mn.mantissa <= 0,
        mx.mantissa >= 0,
    ensures
        spec_dec_le(mn, mx),
{
    lemma_pow10_pos(mn.scale as nat);
    lemma_pow10_pos(mx.scale as nat);
    let a = mn.mantissa as int;
    let b = mx.mantissa as int;
    let pa = pow10(mn.scale as nat) as int;
    let pb = pow10(mx.scale as nat) as int;
    assert(a * pb <= 0 && 0 <= b * pa) by (nonlinear_arith)
        requires
            a <= 0,
            b >= 0,
            pa >= 1,
            pb >= 1,
    ;
}

/// Scan artifact text for `vertex` lines and fold their coordinates
/// into an origin-pinned bounding box. `None` when a vertex line is
/// malformed or a coordinate does not parse.
pub fn extract_bounds(text: &str) -> (r: Option<Bounds>)
    ensures
        r == spec_extract(text@),
        r matches Some(b) ==> bounds_wf(b) && spec_dec_le(b.min_x, b.max_x) && spec_dec_le(
            b.min_y,
            b.max_y,
        ) && spec_dec_le(b.min_z, b.max_z),
{
    let chars = str_to_chars(text);
    let lines = split_char(&chars, '\n');
    let ghost lv = lines@.map_values(|p: Vec<char>| p@);
    let ghost b0 = Bounds {
        min_x: dec_zero(),
        max_x: dec_zero(),
        min_y: dec_zero(),
        max_y: dec_zero(),
        min_z: dec_zero(),
        max_z: dec_zero(),
    };
    let mut b = Bounds {
        min_x: Decimal { mantissa: 0, scale: 0 },
        max_x: Decimal { mantissa: 0, scale: 0 },
        min_y: Decimal { mantissa: 0, scale: 0 },
        max_y: Decimal { mantissa: 0, scale: 0 },
        min_z: Decimal { mantissa: 0, scale: 0 },
        max_z: Decimal { mantissa: 0, scale: 0 },
    };
    let mut i: usize = 0;
    while i < lines.len()
        invariant
            i <= lines@.len(),
            lv == lines@.map_values(|p: Vec<char>| p@),
            spec_extract(text@) == spec_scan(b0, lv),
            spec_scan(b0, lv.take(i as int)) == Some(b),
            bounds_wf(b),
        decreases lines@.len() - i,
    {
        proof {
            assert(lv.take((i + 1) as int).drop_last() =~= lv.take(i as int));
            assert(lv.take((i + 1) as int).last() == lv[i as int]);
            assert(lv[i as int] == lines@[i as int]@);
        }
        let trimmed = trim_start_chars(&lines[i]);
        let toks = split_char(&trimmed, ' ');
        let ghost tv = toks@.map_values(|p: Vec<char>| p@);
        proof {
            assert(tv == spec_split(spec_trim_start(lv[i as int]), ' '));
        }
        if toks.len() == 0 {
            i = i + 1;
            continue ;
        }
        proof {
            assert(tv[0] == toks@[0]@);
        }
        if !chars_eq_str(&toks[0], "vertex") {
            i = i + 1;
            continue ;
        }
        if toks.len() < 4 {
            proof {
                lemma_scan_none(b0, lv, i + 1);
            }
            return None;
        }
        proof {
            assert(tv[1] == toks@[1]@ && tv[2] == toks@[2]@ && tv[3] == toks@[3]@);
        }
        let xo = Decimal::parse_chars(&toks[1]);
        let yo = Decimal::parse_chars(&toks[2]);
        let zo = Decimal::parse_chars(&toks[3]);
        let x: Decimal;
        let y: Decimal;
        let z: Decimal;
        match (xo, yo, zo) {
            (Some(a), Some(bb), Some(c)) => {
                x = a;
                y = bb;
                z = c;
            },
            _ => {
                proof {
                    lemma_scan_none(b0, lv, i + 1);
                }
                return None;
            },
        }
        let fx = fold_axis(b.min_x, b.max_x, x);
        let fy = fold_axis(b.min_y, b.max_y, y);
        let fz = fold_axis(b.min_z, b.max_z, z);
        b = Bounds {
            min_x: fx.0,
            max_x: fx.1,
            min_y: fy.0,
            max_y: fy.1,
            min_z: fz.0,
            max_z: fz.1,
        };
        i = i + 1;
    }
    proof {
        assert(lv.take(lv.len() as int) =~= lv);
        lemma_bounds_ordered(b.min_x, b.max_x);
        lemma_bounds_ordered(b.min_y, b.max_y);
        lemma_bounds_ordered(b.min_z, b.max_z);
    }
    Some(b)
}

} // verus!
