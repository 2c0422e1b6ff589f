//! The map text format: sector count, per-sector lines (4, 6, 7 or 10
//! integers selecting the plain/textured/colored/dual-material variants),
//! wall count, per-wall lines (4, 7 or 8 integers), a blank separator line,
//! then a 5-integer camera line.
//!
//! Malformed line counts, non-integer tokens, out-of-range values and wall
//! ranges that leave the wall list are load-time failures: no partial world
//! is built.

use vstd::prelude::*;
use crate::math::Vec2;
use crate::player::Player;
use crate::world::{Material, Sector, SectorHeight, TextureMapping, Wall, World};

verus! {

/// Whitespace inside a line: space, tab, carriage return.
pub open spec fn is_ws(b: u8) -> bool {
    b == 32 || b == 9 || b == 13
}

/// A decimal digit.
pub open spec fn is_digit(b: u8) -> bool {
    48 <= b <= 57
}

/// The value of a digit string, most significant first.
pub open spec fn spec_digits_val(s: Seq<u8>) -> int
    decreases s.len(),
{
    if s.len() == 0 {
        0
    } else {
        spec_digits_val(s.take(s.len() - 1)) * 10 + (s[s.len() - 1] - 48)
    }
}

/// Whether every byte is a digit.
pub open spec fn spec_all_digits(s: Seq<u8>) -> bool {
    s.len() > 0 && forall|i: int| 0 <= i < s.len() ==> is_digit(#[trigger] s[i])
}

/// What parsing one token as a 32-bit integer yields: an optional leading
/// sign, then digits of any count; anything else, or a value outside the
/// type, is a failure.
pub open spec fn spec_parse_i32(tok: Seq<u8>) -> Option<int> {
    if tok.len() > 0 && tok[0] == 45 {
        let digits = tok.skip(1);
        if spec_all_digits(digits) && -spec_digits_val(digits) >= i32::MIN {
            Some(-spec_digits_val(digits))
        } else {
            None
        }
    } else if tok.len() > 0 && tok[0] == 43 {
        let digits = tok.skip(1);
        if spec_all_digits(digits) && spec_digits_val(digits) <= i32::MAX {
            Some(spec_digits_val(digits))
        } else {
            None
        }
    } else {
        if spec_all_digits(tok) && spec_digits_val(tok) <= i32::MAX {
            Some(spec_digits_val(tok))
        } else {
            None
        }
    }
}

/// A digit string's value is never negative.
pub proof fn lemma_digits_val_nonneg(s: Seq<u8>)
    requires
        forall|i: int| 0 <= i < s.len() ==> is_digit(#[trigger] s[i]),
    ensures
        spec_digits_val(s) >= 0,
    decreases s.len(),
{
    if s.len() > 0 {
        lemma_digits_val_nonneg(s.take(s.len() - 1));
    }
}

/// Extending a digit string never shrinks its value.
pub proof fn lemma_digits_val_monotonic(s: Seq<u8>, m: int)
    requires
        0 <= m <= s.len(),
        forall|i: int| 0 <= i < s.len() ==> is_digit(#[trigger] s[i]),
    ensures
        spec_digits_val(s) >= spec_digits_val(s.take(m)),
    decreases s.len(),
{
    if m < s.len() {
        lemma_digits_val_nonneg(s.take(s.len() - 1));
        assert(forall|i: int|
            0 <= i < s.len() - 1 ==> is_digit(#[trigger] s.take(s.len() - 1)[i]));
        lemma_digits_val_monotonic(s.take(s.len() - 1), m);
        assert(s.take(s.len() - 1).take(m) =~= s.take(m));
    } else {
        assert(s.take(m) =~= s);
    }
}

/// The cap above which a digit run cannot name a 32-bit value, whatever
/// digits follow.
pub const DIGITS_CAP: i64 = 0xFFFF_FFFF;

/// Parses the digit run of a token: the digits' value, or `None` when a
/// byte is no digit or the value already exceeds every 32-bit bound.
fn parse_digits(tok: &[u8], from: usize) -> (r: Option<i64>)
    requires
        from <= tok@.len(),
    ensures
        match r {
            Some(v) => spec_all_digits(tok@.skip(from as int)) && v == spec_digits_val(
                tok@.skip(from as int),
            ) && 0 <= v <= DIGITS_CAP,
            None => !spec_all_digits(tok@.skip(from as int)) || spec_digits_val(
                tok@.skip(from as int),
            ) > DIGITS_CAP,
        },
{
    let n = tok.len();
    if from >= n {
        return None;
    }
    let ghost digits = tok@.skip(from as int);
    let mut acc: i64 = 0;
    let mut i: usize = from;
    while i < n
        invariant
            from <= i <= n,
            n == tok@.len(),
            digits == tok@.skip(from as int),
            forall|j: int| from <= j < i ==> is_digit(#[trigger] tok@[j]),
            acc == spec_digits_val(tok@.subrange(from as int, i as int)),
            0 <= acc <= DIGITS_CAP,
        decreases n - i,
    {
        let b = tok[i];
        if b < 48 || b > 57 {
            assert(!is_digit(digits[i - from]));
            return None;
        }
        proof {
            assert(tok@.subrange(from as int, i + 1).take(i - from) =~= tok@.subrange(
                from as int,
                i as int,
            ));
        }
        acc = acc * 10 + ((b - 48) as i64);
        i = i + 1;
        if acc > DIGITS_CAP {
            proof {
                // whatever digits follow, the value only grows past the cap
                if spec_all_digits(digits) {
                    assert(digits.take(i - from) =~= tok@.subrange(from as int, i as int));
                    lemma_digits_val_monotonic(digits, i - from);
                }
            }
            return None;
        }
    }
    proof {
        assert(tok@.subrange(from as int, n as int) =~= digits);
    }
    Some(acc)
}

/// Parses one token as a 32-bit integer, mirroring `spec_parse_i32`.
pub fn parse_i32(tok: &[u8]) -> (r: Option<i32>)
    ensures
        match r {
            Some(v) => spec_parse_i32(tok@) == Some(v as int),
            None => spec_parse_i32(tok@) is None,
        },
{
    if tok.len() > 0 && (tok[0] == 45 || tok[0] == 43) {
        let negative = tok[0] == 45;
        match parse_digits(tok, 1) {
            Some(v) => {
                if negative {
                    if -v >= i32::MIN as i64 {
                        Some((-v) as i32)
                    } else {
                        None
                    }
                } else {
                    if v <= i32::MAX as i64 {
                        Some(v as i32)
                    } else {
                        None
                    }
                }
            },
            None => None,
        }
    } else {
        proof {
            assert(tok@.skip(0) =~= tok@);
        }
        match parse_digits(tok, 0) {
            Some(v) => {
                if v <= i32::MAX as i64 {
                    Some(v as i32)
                } else {
                    None
                }
            },
            None => None,
        }
    }
}

/// The length of the token starting the string: the run of non-whitespace
/// bytes at its front.
pub open spec fn spec_token_len(s: Seq<u8>) -> nat
    decreases s.len(),
{
    if s.len() == 0 || is_ws(s[0]) {
        0
    } else {
        1 + spec_token_len(s.skip(1))
    }
}

/// A scan that stops at the first whitespace finds the token length.
pub proof fn lemma_token_len(s: Seq<u8>, m: int)
    requires
        0 <= m <= s.len(),
        forall|k: int| 0 <= k < m ==> !is_ws(#[trigger] s[k]),
        m == s.len() || is_ws(s[m]),
    ensures
        spec_token_len(s) == m,
    decreases m,
{
    if m == 0 {
    } else {
        lemma_token_len(s.skip(1), m - 1);
    }
}

/// A token never runs past the end of the string.
pub proof fn lemma_token_len_bound(s: Seq<u8>)
    ensures
        spec_token_len(s) <= s.len(),
    decreases s.len(),
{
    if s.len() > 0 && !is_ws(s[0]) {
        lemma_token_len_bound(s.skip(1));
    }
}

/// The whitespace-separated tokens of a line, in order.
pub open spec fn spec_tokens(s: Seq<u8>) -> Seq<Seq<u8>>
    decreases s.len(),
    via spec_tokens_decreases
{
    if s.len() == 0 {
        Seq::empty()
    } else if is_ws(s[0]) {
        spec_tokens(s.skip(1))
    } else {
        seq![s.subrange(0, spec_token_len(s) as int)] + spec_tokens(s.skip(spec_token_len(s) as int))
    }
}

#[via_fn]
proof fn spec_tokens_decreases(s: Seq<u8>) {
    if s.len() > 0 && !is_ws(s[0]) {
        lemma_token_len_bound(s);
    }
}

/// All tokens parsed as 32-bit integers; one malformed token fails the
/// whole sequence.
pub open spec fn spec_parse_tokens(toks: Seq<Seq<u8>>) -> Option<Seq<i32>>
    decreases toks.len(),
{
    if toks.len() == 0 {
        Some(Seq::empty())
    } else {
        match spec_parse_i32(toks[0]) {
            Some(v) => match spec_parse_tokens(toks.skip(1)) {
                Some(rest) => Some(seq![v as i32] + rest),
                None => None,
            },
            None => None,
        }
    }
}

/// Splits one line into whitespace-separated integers; any malformed token
/// fails the whole line.
#[verifier::rlimit(60)]
pub fn tokenize_i32_line(line: &[u8]) -> (r: Option<Vec<i32>>)
    ensures
        match r {
            Some(v) => spec_parse_tokens(spec_tokens(line@)) == Some(v@),
            None => spec_parse_tokens(spec_tokens(line@)) is None,
        },
{
    let n = line.len();
    let ghost goal = spec_parse_tokens(spec_tokens(line@));
    let mut out: Vec<i32> = Vec::new();
    let mut i: usize = 0;
    proof {
        assert(line@.skip(0) =~= line@);
        if spec_parse_tokens(spec_tokens(line@)) is Some {
            assert(Seq::<i32>::empty() + spec_parse_tokens(spec_tokens(line@))->Some_0
                =~= spec_parse_tokens(spec_tokens(line@))->Some_0);
        }
    }
    while i < n
        invariant
            i <= n,
            n == line@.len(),
            goal == spec_parse_tokens(spec_tokens(line@)),
            goal == (match spec_parse_tokens(spec_tokens(line@.skip(i as int))) {
                Some(rest) => Some(out@ + rest),
                None => None::<Seq<i32>>,
            }),
        decreases n - i,
    {
        let ghost rem = line@.skip(i as int);
        let b = line[i];
        assert(rem[0] == b);
        if b == 32 || b == 9 || b == 13 {
            proof {
                assert(rem.skip(1) =~= line@.skip(i + 1));
            }
            i = i + 1;
        } else {
            // take the token run
            let start = i;
            let mut j = i;
            while j < n
                invariant_except_break
                    start <= j <= n,
                    n == line@.len(),
                    forall|k: int| start <= k < j ==> !is_ws(#[trigger] line@[k]),
                ensures
                    start <= j <= n,
                    forall|k: int| start <= k < j ==> !is_ws(#[trigger] line@[k]),
                    j == n || is_ws(line@[j as int]),
                decreases n - j,
            {
                let c = line[j];
                if c == 32 || c == 9 || c == 13 {
                    break;
                }
                j = j + 1;
            }
            proof {
                assert forall|k: int| 0 <= k < j - start implies !is_ws(#[trigger] rem[k]) by {
                    assert(rem[k] == line@[i + k]);
                }
                lemma_token_len(rem, j - start);
                assert(rem.subrange(0, j - start) =~= line@.subrange(start as int, j as int));
                assert(rem.skip(j - start) =~= line@.skip(j as int));
            }
            let tok = vstd::slice::slice_subrange(line, start, j);
            match parse_i32(tok) {
                Some(v) => {
                    let ghost out_before = out@;
                    out.push(v);
                    proof {
                        match spec_parse_tokens(spec_tokens(rem).skip(1)) {
                            Some(rest) => {
                                assert(spec_tokens(rem).skip(1) =~= spec_tokens(
                                    line@.skip(j as int),
                                ));
                                assert(out_before + (seq![v] + rest) =~= out@ + rest);
                            },
                            None => {
                                assert(spec_tokens(rem).skip(1) =~= spec_tokens(
                                    line@.skip(j as int),
                                ));
                            },
                        }
                    }
                },
                None => {
                    return None;
                },
            }
            i = j;
        }
    }
    proof {
        assert(line@.skip(n as int) =~= Seq::<u8>::empty());
        assert(spec_tokens(line@.skip(n as int)).len() == 0);
        if goal is Some {
            assert(out@ + Seq::<i32>::empty() =~= out@);
        }
    }
    Some(out)
}

/// The sector a well-formed sector line describes: 6 integers give one
/// texture for both planes, 7 a color, 10 two full texture mappings, any
/// other length of at least 4 the default materials.
pub open spec fn spec_sector_of(nums: Seq<i32>) -> Sector {
    let wall = Vec2 { x: nums[0], y: nums[1] };
    let height = SectorHeight { top: nums[2], bottom: nums[3] };
    if nums.len() == 6 {
        let m = Material::Texture(
            TextureMapping {
                texture: nums[4] as usize,
                uv: Vec2 { x: nums[5], y: nums[5] },
                shade: 0,
            },
        );
        Sector { wall, height, material: [m, m] }
    } else if nums.len() == 7 {
        let m = Material::Color([nums[4] as u8, nums[5] as u8, nums[6] as u8, 0xff]);
        Sector { wall, height, material: [m, m] }
    } else if nums.len() == 10 {
        Sector {
            wall,
            height,
            material: [
                Material::Texture(
                    TextureMapping {
                        texture: nums[4] as usize,
                        uv: Vec2 { x: nums[5], y: nums[5] },
                        shade: nums[6] as u8,
                    },
                ),
                Material::Texture(
                    TextureMapping {
                        texture: nums[7] as usize,
                        uv: Vec2 { x: nums[8], y: nums[8] },
                        shade: nums[9] as u8,
                    },
                ),
            ],
        }
    } else {
        let m = Material::Color([0xff, 0xff, 0xff, 0xff]);
        Sector { wall, height, material: [m, m] }
    }
}

/// Builds the sector a line describes; fewer than 4 integers is a failure.
pub fn parse_sector_line(nums: &Vec<i32>) -> (r: Option<Sector>)
    ensures
        match r {
            Some(s) => nums@.len() >= 4 && s == spec_sector_of(nums@),
            None => nums@.len() < 4,
        },
{
    if nums.len() < 4 {
        return None;
    }
    let wall = Vec2 { x: nums[0], y: nums[1] };
    let height = SectorHeight { top: nums[2], bottom: nums[3] };
    let s: Sector = if nums.len() == 6 {
        let m = Material::Texture(
            TextureMapping {
                texture: nums[4] as usize,
                uv: Vec2 { x: nums[5], y: nums[5] },
                shade: 0,
            },
        );
        Sector { wall, height, material: [m, m] }
    } else if nums.len() == 7 {
        let m = Material::Color([nums[4] as u8, nums[5] as u8, nums[6] as u8, 0xff]);
        Sector { wall, height, material: [m, m] }
    } else if nums.len() == 10 {
        Sector {
            wall,
            height,
            material: [
                Material::Texture(
                    TextureMapping {
                        texture: nums[4] as usize,
                        uv: Vec2 { x: nums[5], y: nums[5] },
                        shade: nums[6] as u8,
                    },
                ),
                Material::Texture(
                    TextureMapping {
                        texture: nums[7] as usize,
                        uv: Vec2 { x: nums[8], y: nums[8] },
                        shade: nums[9] as u8,
                    },
                ),
            ],
        }
    } else {
        let m = Material::Color([0xff, 0xff, 0xff, 0xff]);
        Sector { wall, height, material: [m, m] }
    };
    Some(s)
}

/// The wall a well-formed wall line describes: 7 integers give a colored
/// wall, 8 a textured one, any other length of at least 4 the default
/// material.
pub open spec fn spec_wall_of(nums: Seq<i32>) -> Wall {
    let p1 = Vec2 { x: nums[0], y: nums[1] };
    let p2 = Vec2 { x: nums[2], y: nums[3] };
    if nums.len() == 7 {
        Wall {
            point1: p1,
            point2: p2,
            material: Material::Color([nums[4] as u8, nums[5] as u8, nums[6] as u8, 0xff]),
        }
    } else if nums.len() == 8 {
        Wall {
            point1: p1,
            point2: p2,
            material: Material::Texture(
                TextureMapping {
                    texture: nums[4] as usize,
                    uv: Vec2 { x: nums[5], y: nums[6] },
                    shade: nums[7] as u8,
                },
            ),
        }
    } else {
        Wall { point1: p1, point2: p2, material: Material::Color([0xff, 0xff, 0xff, 0xff]) }
    }
}

/// Builds the wall a line describes; fewer than 4 integers is a failure.
pub fn parse_wall_line(nums: &Vec<i32>) -> (r: Option<Wall>)
    ensures
        match r {
            Some(w) => nums@.len() >= 4 && w == spec_wall_of(nums@),
            None => nums@.len() < 4,
        },
{
    if nums.len() < 4 {
        return None;
    }
    let p1 = Vec2 { x: nums[0], y: nums[1] };
    let p2 = Vec2 { x: nums[2], y: nums[3] };
    let w: Wall = if nums.len() == 7 {
        Wall {
            point1: p1,
            point2: p2,
            material: Material::Color([nums[4] as u8, nums[5] as u8, nums[6] as u8, 0xff]),
        }
    } else if nums.len() == 8 {
        Wall {
            point1: p1,
            point2: p2,
            material: Material::Texture(
                TextureMapping {
                    texture: nums[4] as usize,
                    uv: Vec2 { x: nums[5], y: nums[6] },
                    shade: nums[7] as u8,
                },
            ),
        }
    } else {
        Wall { point1: p1, point2: p2, material: Material::Color([0xff, 0xff, 0xff, 0xff]) }
    };
    Some(w)
}

/// Whether a line holds nothing but whitespace.
pub open spec fn spec_blank(line: Seq<u8>) -> bool {
    forall|i: int| 0 <= i < line.len() ==> is_ws(#[trigger] line[i])
}

/// The count a count line yields: its single integer, or zero when the
/// line holds anything else.
pub open spec fn spec_count_of(line: Seq<u8>) -> int {
    match spec_parse_tokens(spec_tokens(line)) {
        Some(v) => if v.len() == 1 {
            v[0] as int
        } else {
            0
        },
        None => 0,
    }
}

/// `count` sectors parsed from consecutive lines starting at `idx`.
pub open spec fn spec_parse_sectors(lines: Seq<Seq<u8>>, idx: int, count: nat) -> Option<
    Seq<Sector>,
>
    decreases count,
{
    if count == 0 {
        Some(Seq::empty())
    } else if idx >= lines.len() {
        None
    } else {
        match spec_parse_tokens(spec_tokens(lines[idx])) {
            Some(nums) => if nums.len() < 4 {
                None
            } else {
                match spec_parse_sectors(lines, idx + 1, (count - 1) as nat) {
                    Some(rest) => Some(seq![spec_sector_of(nums)] + rest),
                    None => None,
                }
            },
            None => None,
        }
    }
}

/// `count` walls parsed from consecutive lines starting at `idx`.
pub open spec fn spec_parse_walls(lines: Seq<Seq<u8>>, idx: int, count: nat) -> Option<Seq<Wall>>
    decreases count,
{
    if count == 0 {
        Some(Seq::empty())
    } else if idx >= lines.len() {
        None
    } else {
        match spec_parse_tokens(spec_tokens(lines[idx])) {
            Some(nums) => if nums.len() < 4 {
                None
            } else {
                match spec_parse_walls(lines, idx + 1, (count - 1) as nat) {
                    Some(rest) => Some(seq![spec_wall_of(nums)] + rest),
                    None => None,
                }
            },
            None => None,
        }
    }
}

/// Every wall range is ordered and stays inside the wall list.
pub open spec fn spec_ranges_ok(sectors: Seq<Sector>, wall_count: int) -> bool {
    forall|i: int|
        0 <= i < sectors.len() ==> {
            let s = #[trigger] sectors[i];
            0 <= s.wall.x && s.wall.x <= s.wall.y && s.wall.y <= wall_count
        }
}

/// A nonnegative line count, as the loops consume it.
pub open spec fn spec_count_nat(c: int) -> nat {
    if c >= 0 {
        c as nat
    } else {
        0
    }
}

/// What parsing a complete map text yields: the sectors, the walls and the
/// five camera numbers, or nothing when any part is malformed.
pub open spec fn spec_parse_map(text: Seq<u8>) -> Option<
    (Seq<Sector>, Seq<Wall>, (int, int, int, int, int)),
> {
    let lines = spec_split_lines(text);
    let nsec = spec_count_nat(spec_count_of(lines[0]));
    match spec_parse_sectors(lines, 1, nsec) {
        None => None,
        Some(sectors) => {
            let wl_idx = 1 + nsec;
            if wl_idx >= lines.len() {
                None
            } else {
                let nwall = spec_count_nat(spec_count_of(lines[wl_idx as int]));
                match spec_parse_walls(lines, wl_idx + 1 as int, nwall) {
                    None => None,
                    Some(walls) => {
                        let sep = wl_idx + 1 + nwall;
                        if sep >= lines.len() {
                            None
                        } else if !spec_blank(lines[sep as int]) {
                            None
                        } else if sep + 1 >= lines.len() {
                            None
                        } else {
                            match spec_parse_tokens(spec_tokens(lines[sep + 1 as int])) {
                                None => None,
                                Some(pn) => if pn.len() < 5 {
                                    None
                                } else if !(0 <= pn[3] < 360) {
                                    None
                                } else if !spec_ranges_ok(sectors, walls.len() as int) {
                                    None
                                } else {
                                    Some(
                                        (
                                            sectors,
                                            walls,
                                            (
                                                pn[0] as int,
                                                pn[1] as int,
                                                pn[2] as int,
                                                pn[3] as int,
                                                pn[4] as int,
                                            ),
                                        ),
                                    )
                                },
                            }
                        }
                    },
                }
            }
        },
    }
}

/// A loaded map: the world geometry and the initial camera state.
pub struct MapFile {
    pub player: Player,
    pub world: World,
}

impl MapFile {
    /// Parses a complete map text, mirroring `spec_parse_map`: the wall
    /// ranges are validated against the wall list and the camera angle
    /// against the trig table range, so the world and camera invariants
    /// hold on success.
    #[verifier::rlimit(100)]
    pub fn from(text: &[u8]) -> (r: Option<MapFile>)
        ensures
            match r {
                Some(m) => {
                    &&& spec_parse_map(text@) is Some
                    &&& m.world.sectors@ == spec_parse_map(text@)->Some_0.0
                    &&& m.world.walls@ == spec_parse_map(text@)->Some_0.1
                    &&& m.player.position.x == spec_parse_map(text@)->Some_0.2.0
                    &&& m.player.position.y == spec_parse_map(text@)->Some_0.2.1
                    &&& m.player.position.z == spec_parse_map(text@)->Some_0.2.2
                    &&& m.player.angle == spec_parse_map(text@)->Some_0.2.3
                    &&& m.player.updown == spec_parse_map(text@)->Some_0.2.4
                    &&& m.world.wf()
                    &&& m.player.wf()
                },
                None => spec_parse_map(text@) is None,
            },
    {
        let lines = split_lines(text);
        let ghost linesv = spec_split_lines(text@);
        let mut li: usize = 0;
        // Sector count; a malformed count reads as zero.
        if li >= lines.len() {
            return None;
        }
        let number_of_sectors: i32 = {
            let toks = tokenize_i32_line(lines[li].as_slice());
            li = li + 1;
            match toks {
                Some(v) => if v.len() == 1 {
                    v[0]
                } else {
                    0
                },
                None => 0,
            }
        };
        let ghost nsec = spec_count_nat(spec_count_of(linesv[0]));
        proof {
            assert(number_of_sectors >= 0 ==> nsec == number_of_sectors);
            assert(number_of_sectors < 0 ==> nsec == 0);
        }
        let mut sectors: Vec<Sector> = Vec::new();
        let mut si: i32 = 0;
        proof {
            if spec_parse_sectors(linesv, 1, nsec) is Some {
                assert(Seq::<Sector>::empty() + spec_parse_sectors(linesv, 1, nsec)->Some_0
                    =~= spec_parse_sectors(linesv, 1, nsec)->Some_0);
            }
        }
        while si < number_of_sectors
            invariant
                linesv == spec_split_lines(text@),
                lines@.len() == linesv.len(),
                forall|k: int| 0 <= k < lines@.len() ==> (#[trigger] lines@[k])@ == linesv[k],
                0 <= si,
                si <= number_of_sectors || si == 0,
                nsec == spec_count_nat(spec_count_of(linesv[0])),
                number_of_sectors >= 0 ==> nsec == number_of_sectors,
                number_of_sectors < 0 ==> nsec == 0,
                si <= nsec,
                li == 1 + si,
                sectors@.len() == si,
                (match spec_parse_sectors(linesv, li as int, (nsec - si) as nat) {
                    Some(rest) => spec_parse_sectors(linesv, 1, nsec) == Some(sectors@ + rest),
                    None => spec_parse_sectors(linesv, 1, nsec) is None,
                }),
            decreases number_of_sectors - si,
        {
            if li >= lines.len() {
                return None;
            }
            let toks = match tokenize_i32_line(lines[li].as_slice()) {
                Some(v) => v,
                None => {
                    return None;
                },
            };
            let sector = match parse_sector_line(&toks) {
                Some(s) => s,
                None => {
                    return None;
                },
            };
            let ghost before = sectors@;
            sectors.push(sector);
            proof {
                match spec_parse_sectors(linesv, li + 1, (nsec - si - 1) as nat) {
                    Some(rest) => {
                        assert(before + (seq![sector] + rest) =~= sectors@ + rest);
                    },
                    None => {},
                }
            }
            li = li + 1;
            si = si + 1;
        }
        // Wall count; a malformed count reads as zero.
        proof {
            assert(spec_parse_sectors(linesv, li as int, 0) == Some(Seq::<Sector>::empty()));
            if spec_parse_sectors(linesv, 1, nsec) is Some {
                assert(sectors@ + Seq::<Sector>::empty() =~= sectors@);
            }
        }
        if li >= lines.len() {
            return None;
        }
        let number_of_walls: i32 = {
            let toks = tokenize_i32_line(lines[li].as_slice());
            li = li + 1;
            match toks {
                Some(v) => if v.len() == 1 {
                    v[0]
                } else {
                    0
                },
                None => 0,
            }
        };
        let ghost nwall = spec_count_nat(spec_count_of(linesv[1 + nsec as int]));
        let ghost wl_start = li as int;
        let mut walls: Vec<Wall> = Vec::new();
        let mut wi: i32 = 0;
        proof {
            if spec_parse_walls(linesv, wl_start, nwall) is Some {
                assert(Seq::<Wall>::empty() + spec_parse_walls(linesv, wl_start, nwall)->Some_0
                    =~= spec_parse_walls(linesv, wl_start, nwall)->Some_0);
            }
        }
        while wi < number_of_walls
            invariant
                linesv == spec_split_lines(text@),
                lines@.len() == linesv.len(),
                forall|k: int| 0 <= k < lines@.len() ==> (#[trigger] lines@[k])@ == linesv[k],
                0 <= wi,
                nsec == spec_count_nat(spec_count_of(linesv[0])),
                spec_parse_sectors(linesv, 1, nsec as nat) == Some(sectors@),
                1 + nsec < linesv.len(),
                wl_start == 2 + nsec,
                nwall == spec_count_nat(spec_count_of(linesv[wl_start - 1])),
                number_of_walls >= 0 ==> nwall == number_of_walls,
                number_of_walls < 0 ==> nwall == 0,
                wi <= nwall,
                li == wl_start + wi,
                walls@.len() == wi,
                (match spec_parse_walls(linesv, li as int, (nwall - wi) as nat) {
                    Some(rest) => spec_parse_walls(linesv, wl_start, nwall) == Some(walls@ + rest),
                    None => spec_parse_walls(linesv, wl_start, nwall) is None,
                }),
            decreases number_of_walls - wi,
        {
            if li >= lines.len() {
                return None;
            }
            let toks = match tokenize_i32_line(lines[li].as_slice()) {
                Some(v) => v,
                None => {
                    return None;
                },
            };
            let wall = match parse_wall_line(&toks) {
                Some(w) => w,
                None => {
                    return None;
                },
            };
            let ghost before = walls@;
            walls.push(wall);
            proof {
                match spec_parse_walls(linesv, li + 1, (nwall - wi - 1) as nat) {
                    Some(rest) => {
                        assert(before + (seq![wall] + rest) =~= walls@ + rest);
                    },
                    None => {},
                }
            }
            li = li + 1;
            wi = wi + 1;
        }
        proof {
            assert(spec_parse_walls(linesv, li as int, 0) == Some(Seq::<Wall>::empty()));
            if spec_parse_walls(linesv, wl_start, nwall) is Some {
                assert(walls@ + Seq::<Wall>::empty() =~= walls@);
            }
        }
        // The blank separator line.
        if li >= lines.len() {
            return None;
        }
        let void_ok = is_blank(lines[li].as_slice());
        if !void_ok {
            return None;
        }
        li = li + 1;
        // The camera line: x y z angle updown.
        if li >= lines.len() {
            return None;
        }
        let pn = match tokenize_i32_line(lines[li].as_slice()) {
            Some(v) => v,
            None => {
                return None;
            },
        };
        if pn.len() < 5 {
            return None;
        }
        if pn[3] < 0 || pn[3] >= 360 {
            return None;
        }
        let player = Player::new_with_position_angles(
            crate::math::Vec3 { x: pn[0], y: pn[1], z: pn[2] },
            pn[3],
            pn[4],
        );
        // Validate the sector wall ranges against the wall list.
        let ghost sep: int = 2 + nsec as int + nwall as int;
        let wall_count = walls.len();
        proof {
            assert(wall_count <= i32::MAX as usize);
        }
        let mut ci: usize = 0;
        while ci < sectors.len()
            invariant
                linesv == spec_split_lines(text@),
                nsec == spec_count_nat(spec_count_of(linesv[0])),
                spec_parse_sectors(linesv, 1, nsec as nat) == Some(sectors@),
                1 + nsec < linesv.len(),
                nwall == spec_count_nat(spec_count_of(linesv[1 + nsec as int])),
                spec_parse_walls(linesv, 2 + nsec as int, nwall as nat) == Some(walls@),
                sep == 2 + nsec + nwall,
                sep < linesv.len(),
                spec_blank(linesv[sep]),
                sep + 1 < linesv.len(),
                spec_parse_tokens(spec_tokens(linesv[sep + 1])) == Some(pn@),
                pn@.len() >= 5,
                0 <= pn@[3] < 360,
                player.position.x == pn@[0] && player.position.y == pn@[1] && player.position.z
                    == pn@[2],
                player.angle == pn@[3] && player.updown == pn@[4],
                player.wf(),
                wall_count == walls@.len(),
                wall_count <= i32::MAX as usize,
                ci <= sectors@.len(),
                forall|j: int|
                    0 <= j < ci ==> {
                        let s = #[trigger] sectors@[j];
                        0 <= s.wall.x && s.wall.x <= s.wall.y && s.wall.y <= wall_count
                    },
            decreases sectors@.len() - ci,
        {
            let s = sectors[ci];
            if s.wall.x < 0 || s.wall.y < s.wall.x || s.wall.y > wall_count as i32 {
                proof {
                    assert(!spec_ranges_ok(sectors@, walls@.len() as int));
                }
                return None;
            }
            ci = ci + 1;
        }
        let world = World { walls, sectors };
        Some(MapFile { player, world })
    }
}

/// Whether a line holds nothing but whitespace.
fn is_blank(line: &[u8]) -> (r: bool)
    ensures
        r == (forall|i: int| 0 <= i < line@.len() ==> is_ws(#[trigger] line@[i])),
{
    let n = line.len();
    let mut i: usize = 0;
    while i < n
        invariant
            i <= n,
            n == line@.len(),
            forall|j: int| 0 <= j < i ==> is_ws(#[trigger] line@[j]),
        decreases n - i,
    {
        let b = line[i];
        if !(b == 32 || b == 9 || b == 13) {
            return false;
        }
        i = i + 1;
    }
    true
}

/// The length of the first line: the run of bytes before the first newline.
pub open spec fn spec_line_len(s: Seq<u8>) -> nat
    decreases s.len(),
{
    if s.len() == 0 || s[0] == 10 {
        0
    } else {
        1 + spec_line_len(s.skip(1))
    }
}

/// A line never runs past the end of the text.
pub proof fn lemma_line_len_bound(s: Seq<u8>)
    ensures
        spec_line_len(s) <= s.len(),
    decreases s.len(),
{
    if s.len() > 0 && s[0] != 10 {
        lemma_line_len_bound(s.skip(1));
    }
}

/// A scan that stops at the first newline finds the line length.
pub proof fn lemma_line_len(s: Seq<u8>, m: int)
    requires
        0 <= m <= s.len(),
        forall|k: int| 0 <= k < m ==> (#[trigger] s[k]) != 10,
        m == s.len() || s[m] == 10,
    ensures
        spec_line_len(s) == m,
    decreases m,
{
    if m > 0 {
        lemma_line_len(s.skip(1), m - 1);
    }
}

/// The lines of a text, split on newline bytes; the newline belongs to no
/// line, and the text always ends in one final (possibly empty) line.
pub open spec fn spec_split_lines(s: Seq<u8>) -> Seq<Seq<u8>>
    decreases s.len(),
    via spec_split_lines_decreases
{
    let ll = spec_line_len(s) as int;
    if ll == s.len() {
        seq![s]
    } else {
        seq![s.subrange(0, ll)] + spec_split_lines(s.skip(ll + 1))
    }
}

#[via_fn]
proof fn spec_split_lines_decreases(s: Seq<u8>) {
    lemma_line_len_bound(s);
}

/// The views of a sequence of byte vectors.
pub open spec fn views_of(out: Seq<Vec<u8>>) -> Seq<Seq<u8>> {
    out.map_values(|v: Vec<u8>| v@)
}

/// The lines of a text whose first line continues an already-read prefix.
pub open spec fn spec_lines_cont(pre: Seq<u8>, s: Seq<u8>) -> Seq<Seq<u8>> {
    seq![pre + spec_split_lines(s)[0]] + spec_split_lines(s).skip(1)
}

/// Splits the text on newline bytes, mirroring `spec_split_lines`.
fn split_lines(text: &[u8]) -> (r: Vec<Vec<u8>>)
    ensures
        r@.len() == spec_split_lines(text@).len(),
        forall|i: int|
            0 <= i < r@.len() ==> (#[trigger] r@[i])@ == spec_split_lines(text@)[i],
{
    let n = text.len();
    let ghost linesv = spec_split_lines(text@);
    let mut out: Vec<Vec<u8>> = Vec::new();
    let mut cur: Vec<u8> = Vec::new();
    let mut i: usize = 0;
    proof {
        assert(text@.skip(0) =~= text@);
        assert(Seq::<u8>::empty() + spec_split_lines(text@)[0] =~= spec_split_lines(text@)[0]);
        assert(linesv =~~= views_of(out@) + spec_lines_cont(cur@, text@.skip(0)));
    }
    while i < n
        invariant
            i <= n,
            n == text@.len(),
            linesv == spec_split_lines(text@),
            linesv =~~= views_of(out@) + spec_lines_cont(cur@, text@.skip(i as int)),
        decreases n - i,
    {
        let ghost rem = text@.skip(i as int);
        let ghost nrem = text@.skip(i + 1);
        let b = text[i];
        assert(rem[0] == b);
        proof {
            assert(rem.skip(1) =~= nrem);
            lemma_line_len_bound(rem);
            lemma_line_len_bound(nrem);
        }
        if b == 10 {
            proof {
                assert(spec_line_len(rem) == 0);
                assert(rem.subrange(0, 0) =~= Seq::<u8>::empty());
                // the finished line is exactly cur
                assert(cur@ + spec_split_lines(rem)[0] =~= cur@);
                assert(spec_split_lines(rem).skip(1) =~= spec_split_lines(nrem));
                assert(Seq::<u8>::empty() + spec_split_lines(nrem)[0] =~= spec_split_lines(
                    nrem,
                )[0]);
                assert(spec_lines_cont(cur@, rem) =~~= seq![cur@] + spec_lines_cont(
                    Seq::<u8>::empty(),
                    nrem,
                ));
                assert(views_of(out@.push(cur)) =~~= views_of(out@) + seq![cur@]);
            }
            out.push(cur);
            cur = Vec::new();
            proof {
                assert(linesv =~~= views_of(out@) + spec_lines_cont(cur@, nrem));
            }
        } else {
            proof {
                let ll = spec_line_len(rem) as int;
                assert(ll >= 1);
                if ll == rem.len() {
                    assert(spec_line_len(nrem) == nrem.len());
                    assert(rem.subrange(0, ll) =~= rem);
                    assert(nrem.subrange(0, nrem.len() as int) =~= nrem);
                    assert(rem =~= seq![b] + nrem);
                } else {
                    assert(spec_line_len(nrem) == ll - 1);
                    assert(rem.subrange(0, ll) =~= seq![b] + nrem.subrange(0, ll - 1));
                    assert(rem.skip(ll + 1) =~= nrem.skip(ll));
                }
                assert(spec_split_lines(rem)[0] =~= seq![b] + spec_split_lines(nrem)[0]);
                assert(spec_split_lines(rem).skip(1) =~= spec_split_lines(nrem).skip(1));
                assert(cur@ + spec_split_lines(rem)[0] =~= cur@.push(b) + spec_split_lines(
                    nrem,
                )[0]);
                assert(spec_lines_cont(cur@, rem) =~~= spec_lines_cont(cur@.push(b), nrem));
            }
            cur.push(b);
        }
        i = i + 1;
    }
    proof {
        let rem = text@.skip(n as int);
        assert(rem =~= Seq::<u8>::empty());
        assert(spec_line_len(rem) == 0);
        assert(spec_split_lines(rem) =~= seq![Seq::<u8>::empty()]);
        assert(cur@ + spec_split_lines(rem)[0] =~= cur@);
        assert(spec_lines_cont(cur@, rem) =~~= seq![cur@]);
        assert(views_of(out@.push(cur)) =~~= views_of(out@) + seq![cur@]);
        assert(linesv =~~= views_of(out@.push(cur)));
    }
    out.push(cur);
    proof {
        assert forall|k: int| 0 <= k < out@.len() implies (#[trigger] out@[k])@ == spec_split_lines(
            text@,
        )[k] by {
            assert(views_of(out@)[k] == out@[k]@);
        }
    }
    out
}

} // verus!
