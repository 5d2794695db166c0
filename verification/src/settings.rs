//! Switches that are read from the environment.
//!
//! Every function here takes the text of a variable, or `None` where it is unset
//! or not Unicode.

use crate::text::{number_of, parse_usize, same_text};
use vstd::prelude::*;

verus! {

/// What a variable holds.
pub open spec fn text_of(value: Option<&str>) -> Option<Seq<char>> {
    match value {
        Some(v) => Some(v@),
        None => None,
    }
}

/// A set variable switches on unless it is empty or `0`; an unset one leaves the
/// default.
pub open spec fn switched_on(value: Option<Seq<char>>, default: bool) -> bool {
    match value {
        Some(v) => v.len() > 0 && v != "0"@,
        None => default,
    }
}

/// Reads a switch that has a default.
pub fn env_enabled_default(value: Option<&str>, default: bool) -> (r: bool)
    ensures
        r == switched_on(text_of(value), default),
{
    match value {
        Some(v) => !v.is_empty() && !same_text(v, "0"),
        None => default,
    }
}

/// Reads a switch that is off by default.
pub fn env_enabled(value: Option<&str>) -> (r: bool)
    ensures
        r == switched_on(text_of(value), false),
{
    env_enabled_default(value, false)
}

/// The shapes that run as prompt tiles.
#[derive(Clone, Copy, Debug, PartialEq, Eq, Structural)]
pub enum MtileScope {
    All,
    Kv,
    Qo,
    Ffn,
    Attn,
    Safe,
    Nothing,
}

/// The scope that a text names. Nothing and the empty text name all shapes; an
/// unknown text names none.
pub open spec fn mtile_scope_of(value: Option<Seq<char>>) -> MtileScope {
    match value {
        None => MtileScope::All,
        Some(v) => if v.len() == 0 || v == "all"@ {
            MtileScope::All
        } else if v == "kv"@ {
            MtileScope::Kv
        } else if v == "qo"@ {
            MtileScope::Qo
        } else if v == "ffn"@ {
            MtileScope::Ffn
        } else if v == "attn"@ {
            MtileScope::Attn
        } else if v == "safe"@ {
            MtileScope::Safe
        } else {
            MtileScope::Nothing
        },
    }
}

/// Reads the scope of prompt tiles.
pub fn mtile_scope(value: Option<&str>) -> (r: MtileScope)
    ensures
        r == mtile_scope_of(text_of(value)),
{
    match value {
        None => MtileScope::All,
        Some(v) => {
            if v.is_empty() || same_text(v, "all") {
                MtileScope::All
            } else if same_text(v, "kv") {
                MtileScope::Kv
            } else if same_text(v, "qo") {
                MtileScope::Qo
            } else if same_text(v, "ffn") {
                MtileScope::Ffn
            } else if same_text(v, "attn") {
                MtileScope::Attn
            } else if same_text(v, "safe") {
                MtileScope::Safe
            } else {
                MtileScope::Nothing
            }
        },
    }
}

impl MtileScope {
    /// Whether a shape is within the scope.
    pub open spec fn includes(self, k: int, n: int) -> bool {
        match self {
            MtileScope::All => true,
            MtileScope::Kv => k == 2048 && n == 256,
            MtileScope::Qo => k == 2048 && n == 2048,
            MtileScope::Ffn => (k == 2048 && n == 5632) || (k == 5632 && n == 2048),
            MtileScope::Attn => k == 2048 && (n == 256 || n == 2048),
            MtileScope::Safe => k == 2048 && (n == 256 || n == 5632),
            MtileScope::Nothing => false,
        }
    }

    /// Whether a shape is within the scope.
    pub fn contains(self, k: usize, n: usize) -> (r: bool)
        ensures
            r == self.includes(k as int, n as int),
    {
        match self {
            MtileScope::All => true,
            MtileScope::Kv => k == 2048 && n == 256,
            MtileScope::Qo => k == 2048 && n == 2048,
            MtileScope::Ffn => (k == 2048 && n == 5632) || (k == 5632 && n == 2048),
            MtileScope::Attn => k == 2048 && (n == 256 || n == 2048),
            MtileScope::Safe => k == 2048 && (n == 256 || n == 5632),
            MtileScope::Nothing => false,
        }
    }
}

/// Whether a shape runs as a prompt tile: the tiles are switched on and the
/// scope includes the shape.
pub fn mtile_shape_enabled(w8_mtile: Option<&str>, scope: Option<&str>, k: usize, n: usize) -> (r:
    bool)
    ensures
        r == (switched_on(text_of(w8_mtile), false) && mtile_scope_of(text_of(scope)).includes(
            k as int,
            n as int,
        )),
{
    env_enabled(w8_mtile) && mtile_scope(scope).contains(k, n)
}

/// The shapes that run in four bits.
#[derive(Clone, Copy, Debug, PartialEq, Eq, Structural)]
pub enum W4Scope {
    All,
    Ffn,
    Attn,
    Proj2048,
    Kv,
    Nothing,
}

/// The scope that a text names; nothing and an unknown text name no shape.
pub open spec fn w4_scope_of(value: Option<Seq<char>>) -> W4Scope {
    match value {
        None => W4Scope::Nothing,
        Some(v) => if v == "ffn"@ {
            W4Scope::Ffn
        } else if v == "attn"@ {
            W4Scope::Attn
        } else if v == "proj2048"@ {
            W4Scope::Proj2048
        } else if v == "kv"@ {
            W4Scope::Kv
        } else if v == "all"@ {
            W4Scope::All
        } else {
            W4Scope::Nothing
        },
    }
}

/// Reads the scope of four-bit projections.
pub fn w4_scope(value: Option<&str>) -> (r: W4Scope)
    ensures
        r == w4_scope_of(text_of(value)),
{
    match value {
        None => W4Scope::Nothing,
        Some(v) => {
            if same_text(v, "ffn") {
                W4Scope::Ffn
            } else if same_text(v, "attn") {
                W4Scope::Attn
            } else if same_text(v, "proj2048") {
                W4Scope::Proj2048
            } else if same_text(v, "kv") {
                W4Scope::Kv
            } else if same_text(v, "all") {
                W4Scope::All
            } else {
                W4Scope::Nothing
            }
        },
    }
}

impl W4Scope {
    /// Whether a shape is within the scope.
    pub open spec fn includes(self, k: int, n: int) -> bool {
        match self {
            W4Scope::All => true,
            W4Scope::Ffn => k == 2048 && n == 5632,
            W4Scope::Attn => k == 2048 && (n == 2048 || n == 256),
            W4Scope::Proj2048 => k == 2048 && n == 2048,
            W4Scope::Kv => k == 2048 && n == 256,
            W4Scope::Nothing => false,
        }
    }

    /// Whether a shape is within the scope.
    pub fn contains(self, k: usize, n: usize) -> (r: bool)
        ensures
            r == self.includes(k as int, n as int),
    {
        match self {
            W4Scope::All => true,
            W4Scope::Ffn => k == 2048 && n == 5632,
            W4Scope::Attn => k == 2048 && (n == 2048 || n == 256),
            W4Scope::Proj2048 => k == 2048 && n == 2048,
            W4Scope::Kv => k == 2048 && n == 256,
            W4Scope::Nothing => false,
        }
    }
}

/// Whether a shape runs in four bits.
pub fn w4a4_shape_enabled(scope: Option<&str>, k: usize, n: usize) -> (r: bool)
    ensures
        r == w4_scope_of(text_of(scope)).includes(k as int, n as int),
{
    w4_scope(scope).contains(k, n)
}

/// The number that a variable holds.
pub open spec fn number_in(value: Option<Seq<char>>) -> Option<usize> {
    match value {
        Some(v) => number_of(v),
        None => None,
    }
}

fn read_number(value: Option<&str>) -> (r: Option<usize>)
    ensures
        r == number_in(text_of(value)),
{
    match value {
        Some(v) => parse_usize(v),
        None => None,
    }
}

/// The K group of square 2048 projections: a multiple of 512 that divides K.
pub open spec fn qo_group(setting: Option<usize>, k: int, n: int) -> Option<usize> {
    match setting {
        Some(g) => if k == 2048 && n == 2048 && 512 <= g <= k && g % 512 == 0 && k % (g as int)
            == 0 {
            Some(g)
        } else {
            None
        },
        None => None,
    }
}

/// Picks the K group of square 2048 projections.
pub fn pick_qo_group(setting: Option<usize>, k: usize, n: usize) -> (r: Option<usize>)
    ensures
        r == qo_group(setting, k as int, n as int),
{
    match setting {
        Some(g) => {
            if k == 2048 && n == 2048 && g >= 512 && g <= k && g % 512 == 0 && k % g == 0 {
                Some(g)
            } else {
                None
            }
        },
        None => None,
    }
}

/// Reads the K group of square 2048 projections.
pub fn mtile_qo_group_size(value: Option<&str>, k: usize, n: usize) -> (r: Option<usize>)
    ensures
        r == qo_group(number_in(text_of(value)), k as int, n as int),
{
    pick_qo_group(read_number(value), k, n)
}

/// The K group of four-bit projections: a multiple of 32 that divides K.
pub open spec fn w4_group(setting: Option<usize>, k: int) -> Option<usize> {
    match setting {
        Some(g) => if g > 0 && g % 32 == 0 && k % (g as int) == 0 {
            Some(g)
        } else {
            None
        },
        None => None,
    }
}

/// Picks the K group of four-bit projections.
pub fn pick_w4_group(setting: Option<usize>, k: usize) -> (r: Option<usize>)
    ensures
        r == w4_group(setting, k as int),
{
    match setting {
        Some(g) => {
            if g > 0 && g % 32 == 0 && k % g == 0 {
                Some(g)
            } else {
                None
            }
        },
        None => None,
    }
}

/// Reads the K group of four-bit projections.
pub fn w4a4_group_size(value: Option<&str>, k: usize) -> (r: Option<usize>)
    ensures
        r == w4_group(number_in(text_of(value)), k as int),
{
    pick_w4_group(read_number(value), k)
}

/// Which prompt projections get the two-part activation encoding.
#[derive(Clone, Copy, Debug, PartialEq, Eq, Structural)]
pub enum HiloMode {
    Off,
    WideK,
    All,
}

/// The mode that a text names: `1` and `all` name every projection, `down` the
/// wide-K ones, anything else none.
pub open spec fn hilo_mode_of(value: Option<Seq<char>>) -> HiloMode {
    match value {
        Some(v) => if v == "1"@ || v == "all"@ {
            HiloMode::All
        } else if v == "down"@ {
            HiloMode::WideK
        } else {
            HiloMode::Off
        },
        None => HiloMode::Off,
    }
}

/// Reads the mode of the two-part encoding.
pub fn hilo_mode(value: Option<&str>) -> (r: HiloMode)
    ensures
        r == hilo_mode_of(text_of(value)),
{
    match value {
        Some(v) => {
            if same_text(v, "1") || same_text(v, "all") {
                HiloMode::All
            } else if same_text(v, "down") {
                HiloMode::WideK
            } else {
                HiloMode::Off
            }
        },
        None => HiloMode::Off,
    }
}

/// Whether a projection of `m` rows gets the two-part encoding. A call that is
/// part of one already does not get it again, and the wide-K mode leaves a K that
/// one core takes as it is.
pub open spec fn hilo_applies(mode: HiloMode, m: int, k: int, len: int, inner: bool) -> bool {
    &&& mode != HiloMode::Off
    &&& m >= 2
    &&& k > 0
    &&& len == m * k
    &&& !inner
    &&& !(mode == HiloMode::WideK && k <= 4096)
}

/// Decides whether a projection gets the two-part encoding.
pub fn hilo_needed(mode: HiloMode, m: usize, k: usize, len: usize, inner: bool) -> (r: bool)
    ensures
        r == hilo_applies(mode, m as int, k as int, len as int, inner),
{
    if mode == HiloMode::Off || m < 2 || k == 0 || inner {
        return false;
    }
    let full = match m.checked_mul(k) {
        Some(p) => len == p,
        None => false,
    };
    full && !(mode == HiloMode::WideK && k <= 4096)
}

/// The variables that routing looks at.
pub struct RouteEnv {
    pub native_mtile: Option<String>,
    pub native_mtile_down: Option<String>,
    pub mtile_persist: Option<String>,
    pub mtile_mc: Option<String>,
    pub w8_mtile: Option<String>,
    pub w8_mtile_scope: Option<String>,
    pub mtile_qo_group: Option<String>,
    pub w4a4_scope: Option<String>,
    pub w4a4_group: Option<String>,
    pub w4a4_hadamard: Option<String>,
    pub prefill_cache: Option<String>,
    pub prefill_hilo: Option<String>,
}

/// The switches that routing goes by.
#[derive(Clone, Copy, Debug, PartialEq, Eq, Structural)]
pub struct RouteSettings {
    pub native_mtile: bool,
    pub native_mtile_down: bool,
    pub mtile_persist: bool,
    pub mtile_mc: bool,
    pub w8_mtile: bool,
    pub w8_mtile_scope: MtileScope,
    pub mtile_qo_group: Option<usize>,
    pub w4a4_scope: W4Scope,
    pub w4a4_group: Option<usize>,
    pub w4a4_hadamard: bool,
    pub prefill_cache: bool,
    pub prefill_hilo: HiloMode,
}

/// What a variable holds.
pub open spec fn held(value: Option<String>) -> Option<Seq<char>> {
    match value {
        Some(v) => Some(v@),
        None => None,
    }
}

/// The text of a variable.
pub fn lent(value: &Option<String>) -> (r: Option<&str>)
    ensures
        text_of(r) == held(*value),
{
    match value {
        Some(v) => Some(v.as_str()),
        None => None,
    }
}

impl RouteSettings {
    /// Reads the switches.
    pub fn read(env: &RouteEnv) -> (s: RouteSettings)
        ensures
            s == (RouteSettings {
                native_mtile: switched_on(held(env.native_mtile), false),
                native_mtile_down: switched_on(held(env.native_mtile_down), false),
                mtile_persist: switched_on(held(env.mtile_persist), false),
                mtile_mc: switched_on(held(env.mtile_mc), false),
                w8_mtile: switched_on(held(env.w8_mtile), false),
                w8_mtile_scope: mtile_scope_of(held(env.w8_mtile_scope)),
                mtile_qo_group: number_in(held(env.mtile_qo_group)),
                w4a4_scope: w4_scope_of(held(env.w4a4_scope)),
                w4a4_group: number_in(held(env.w4a4_group)),
                w4a4_hadamard: switched_on(held(env.w4a4_hadamard), false),
                prefill_cache: switched_on(held(env.prefill_cache), false),
                prefill_hilo: hilo_mode_of(held(env.prefill_hilo)),
            }),
    {
        RouteSettings {
            native_mtile: env_enabled(lent(&env.native_mtile)),
            native_mtile_down: env_enabled(lent(&env.native_mtile_down)),
            mtile_persist: env_enabled(lent(&env.mtile_persist)),
            mtile_mc: env_enabled(lent(&env.mtile_mc)),
            w8_mtile: env_enabled(lent(&env.w8_mtile)),
            w8_mtile_scope: mtile_scope(lent(&env.w8_mtile_scope)),
            mtile_qo_group: read_number(lent(&env.mtile_qo_group)),
            w4a4_scope: w4_scope(lent(&env.w4a4_scope)),
            w4a4_group: read_number(lent(&env.w4a4_group)),
            w4a4_hadamard: env_enabled(lent(&env.w4a4_hadamard)),
            prefill_cache: env_enabled(lent(&env.prefill_cache)),
            prefill_hilo: hilo_mode(lent(&env.prefill_hilo)),
        }
    }

    /// Whether prompt batches run as native tiles across the cores.
    pub open spec fn native_routes(self) -> bool {
        self.native_mtile && self.mtile_persist && self.w8_mtile && self.mtile_mc
    }

    /// Whether a shape runs as a prompt tile.
    pub open spec fn tile_shape(self, k: int, n: int) -> bool {
        self.w8_mtile && self.w8_mtile_scope.includes(k, n)
    }

    /// Whether prompt batches run as native tiles across the cores.
    pub fn native_mtile_routes_enabled(&self) -> (r: bool)
        ensures
            r == self.native_routes(),
    {
        self.native_mtile && self.mtile_persist && self.w8_mtile && self.mtile_mc
    }

    /// Whether a shape runs as a prompt tile.
    pub fn tile_shape_enabled(&self, k: usize, n: usize) -> (r: bool)
        ensures
            r == self.tile_shape(k as int, n as int),
    {
        self.w8_mtile && self.w8_mtile_scope.contains(k, n)
    }
}

/// With nothing set, everything that is optional is off.
pub proof fn law_unset_means_off(k: int, n: int)
    ensures
        !switched_on(None, false),
        w4_scope_of(None) == W4Scope::Nothing,
        !w4_scope_of(None).includes(k, n),
        hilo_mode_of(None) == HiloMode::Off,
        qo_group(number_in(None), k, n) is None,
        w4_group(number_in(None), k) is None,
        mtile_scope_of(None) == MtileScope::All,
{
}

/// A switch that is set is off exactly where its text is empty or a single zero;
/// one that is not set has its default.
pub proof fn law_only_nothing_and_zero_switch_off(v: Seq<char>, default: bool)
    ensures
        switched_on(Some(v), default) <==> !(v.len() == 0 || (v.len() == 1 && v[0] == '0')),
        switched_on(None, default) == default,
{
    reveal_strlit("0");
    if v.len() == 1 && v[0] == '0' {
        assert(v =~= "0"@);
    }
}

/// Four bits are used for the shapes that the scope's name stands for, and for no
/// others: `all` stands for every shape, an unknown name and none for no shape.
pub proof fn law_four_bit_scopes(value: Option<Seq<char>>, k: int, n: int)
    ensures
        w4_scope_of(value).includes(k, n) <==> value is Some && {
            let v = value->0;
            ||| v == "all"@
            ||| k == 2048 && n == 5632 && v == "ffn"@
            ||| k == 2048 && n == 2048 && (v == "attn"@ || v == "proj2048"@)
            ||| k == 2048 && n == 256 && (v == "attn"@ || v == "kv"@)
        },
{
    lemma_scope_names();
}

/// Prompt tiles are used for the shapes that the scope's name stands for, and for
/// no others: nothing, the empty name and `all` stand for every shape, an unknown
/// name for none.
pub proof fn law_tile_scopes(value: Option<Seq<char>>, k: int, n: int)
    ensures
        mtile_scope_of(value).includes(k, n) <==> value is None || {
            let v = value->0;
            ||| v.len() == 0
            ||| v == "all"@
            ||| k == 2048 && n == 256 && (v == "kv"@ || v == "attn"@ || v == "safe"@)
            ||| k == 2048 && n == 2048 && (v == "qo"@ || v == "attn"@)
            ||| k == 2048 && n == 5632 && (v == "ffn"@ || v == "safe"@)
            ||| k == 5632 && n == 2048 && v == "ffn"@
        },
{
    lemma_scope_names();
}

/// The names of scopes are not empty and differ from each other.
proof fn lemma_scope_names()
    ensures
        "all"@.len() == 3 && "ffn"@.len() == 3 && "attn"@.len() == 4 && "safe"@.len() == 4,
        "kv"@.len() == 2 && "qo"@.len() == 2 && "proj2048"@.len() == 8,
        "all"@ != "ffn"@,
        "attn"@ != "safe"@,
        "kv"@ != "qo"@,
{
    reveal_strlit("all");
    reveal_strlit("ffn");
    reveal_strlit("attn");
    reveal_strlit("safe");
    reveal_strlit("kv");
    reveal_strlit("qo");
    reveal_strlit("proj2048");
    assert("all"@[0] != "ffn"@[0]);
    assert("attn"@[0] != "safe"@[0]);
    assert("kv"@[0] != "qo"@[0]);
}

/// Wider scopes hold what narrower ones do: the attention scope is the key, value,
/// query and output projections, and no scope holds more than all or less than
/// nothing.
pub proof fn law_scopes_nest(k: int, n: int)
    ensures
        W4Scope::Attn.includes(k, n) <==> W4Scope::Kv.includes(k, n) || W4Scope::Proj2048.includes(
            k,
            n,
        ),
        MtileScope::Attn.includes(k, n) <==> MtileScope::Kv.includes(k, n)
            || MtileScope::Qo.includes(k, n),
        MtileScope::Ffn.includes(k, n) <==> MtileScope::Ffn.includes(n, k),
        MtileScope::Safe.includes(k, n) ==> MtileScope::Kv.includes(k, n)
            || MtileScope::Ffn.includes(k, n),
        W4Scope::Kv.includes(k, n) <==> MtileScope::Kv.includes(k, n),
        W4Scope::Proj2048.includes(k, n) <==> MtileScope::Qo.includes(k, n),
        W4Scope::Ffn.includes(k, n) ==> MtileScope::Ffn.includes(k, n) && k < n,
        !(W4Scope::Attn.includes(k, n) && W4Scope::Ffn.includes(k, n)),
        W4Scope::All.includes(k, n) && MtileScope::All.includes(k, n),
        !W4Scope::Nothing.includes(k, n) && !MtileScope::Nothing.includes(k, n),
{
}

/// A group of square 2048 projections is what was asked for, or none: half of K, a
/// quarter of it, or all of it.
pub proof fn law_square_groups(setting: Option<usize>, k: int, n: int)
    ensures
        qo_group(setting, k, n) is Some ==> qo_group(setting, k, n) == setting,
        qo_group(setting, k, n) is Some <==> {
            &&& k == 2048 && n == 2048
            &&& setting is Some
            &&& setting->0 == 512 || setting->0 == 1024 || setting->0 == 2048
        },
{
    if k == 2048 && setting is Some {
        let g = setting->0;
        if 512 <= g <= 2048 && g % 512 == 0 {
            assert(g == 512 || g == 1024 || g == 1536 || g == 2048);
            assert(2048int % 512 == 0 && 2048int % 1024 == 0 && 2048int % 1536 == 512 && 2048int
                % 2048 == 0);
        }
    }
}

/// A four-bit group is what was asked for, or none: blocks of 32 that fill K
/// without a rest.
pub proof fn law_four_bit_groups(setting: Option<usize>, k: int)
    requires
        k >= 0,
    ensures
        w4_group(setting, k) is Some ==> w4_group(setting, k) == setting,
        w4_group(setting, k) is Some <==> setting is Some && setting->0 > 0 && setting->0 % 32 == 0
            && exists|count: int| count >= 0 && #[trigger] (count * setting->0) == k,
{
    if let Some(g) = setting {
        if g > 0 {
            vstd::arithmetic::div_mod::lemma_fundamental_div_mod(k, g as int);
            if k % (g as int) == 0 {
                let count = k / g as int;
                assert(count * g == g * count) by (nonlinear_arith);
                assert(count >= 0) by (nonlinear_arith)
                    requires
                        k >= 0,
                        g > 0,
                        count == k / g as int,
                ;
                assert(count * setting->0 == k);
            }
            if exists|count: int| count >= 0 && #[trigger] (count * setting->0) == k {
                let count = choose|count: int| count >= 0 && #[trigger] (count * setting->0) == k;
                vstd::arithmetic::div_mod::lemma_mod_multiples_basic(count, g as int);
            }
        }
    }
}

/// The two-part encoding is named by `1` and `all` for every prompt projection and
/// by `down` for those of wide K; anything else names none.
pub proof fn law_two_part_modes(value: Option<Seq<char>>)
    ensures
        hilo_mode_of(value) == HiloMode::All <==> value is Some && (value->0 == "1"@ || value->0
            == "all"@),
        hilo_mode_of(value) == HiloMode::WideK <==> value is Some && value->0 == "down"@,
{
    reveal_strlit("1");
    reveal_strlit("all");
    reveal_strlit("down");
    assert("1"@.len() == 1 && "all"@.len() == 3 && "down"@.len() == 4);
}

/// The two-part encoding is for two rows or more that are all there and are no
/// part of such a call already. The wide-K mode takes those of them whose K one
/// core does not.
pub proof fn law_two_part_encoding(m: int, k: int, len: int, inner: bool)
    ensures
        hilo_applies(HiloMode::All, m, k, len, inner) <==> m > 1 && k > 0 && len == m * k && !inner,
        hilo_applies(HiloMode::WideK, m, k, len, inner) <==> hilo_applies(
            HiloMode::All,
            m,
            k,
            len,
            inner,
        ) && k > 4096,
        !hilo_applies(HiloMode::Off, m, k, len, inner),
{
}

/// Native routes need all of their switches, and a shape runs as a tile only where
/// tiles are switched on and their scope includes it.
pub proof fn law_switches_work_together(s: RouteSettings, k: int, n: int)
    ensures
        s.native_routes() <==> s.native_mtile && s.mtile_persist && s.mtile_mc && s.w8_mtile,
        s.tile_shape(k, n) ==> s.w8_mtile,
        s.tile_shape(k, n) ==> s.w8_mtile_scope.includes(k, n),
        s.w8_mtile && s.w8_mtile_scope == MtileScope::All ==> s.tile_shape(k, n),
        s.w8_mtile && s.w8_mtile_scope.includes(k, n) ==> s.tile_shape(k, n),
{
}

/// A variable holds its own text, lent or not, and an unset one holds none.
pub proof fn law_variables_hold_their_text(value: Option<&str>, owned: Option<String>)
    ensures
        value is None <==> text_of(value) is None,
        value is Some ==> text_of(value)->0 == value->0@,
        owned is None <==> held(owned) is None,
        owned is Some ==> held(owned)->0 == owned->0@,
{
}

} // verus!
