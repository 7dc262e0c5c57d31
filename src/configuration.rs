use vstd::prelude::*;

verus! {

/// One of CMake's four standard build configurations.
#[derive(Debug, Clone, Copy, PartialEq, Eq, Structural)]
pub enum CMakeBuildType {
    Debug,
    Release,
    RelWithDebInfo,
    MinSizeRel,
}

/// The optimization levels that ask for a small binary.
pub open spec fn optimizes_for_size(opt_level: Seq<char>) -> bool {
    opt_level == seq!['s'] || opt_level == seq!['z']
}

/// Every debug setting but `0`, `false` and `none` asks for some debug information.
pub open spec fn wants_debug_info(debug: Seq<char>) -> bool {
    debug != seq!['0'] && debug != seq!['f', 'a', 'l', 's', 'e'] && debug != seq!['n', 'o', 'n', 'e']
}

/// The name of cargo's release profile.
pub open spec fn release_profile() -> Seq<char> {
    seq!['r', 'e', 'l', 'e', 'a', 's', 'e']
}

pub open spec fn is_release(profile: Seq<char>) -> bool {
    profile == release_profile()
}

/// The configuration chosen for a cargo profile, optimization level and debug setting,
/// each of which may be unset. An unset optimization level or debug setting counts as `0`.
pub open spec fn build_configuration(
    profile: Option<Seq<char>>,
    opt_level: Option<Seq<char>>,
    debug: Option<Seq<char>>,
) -> CMakeBuildType {
    let opt = match opt_level {
        Some(o) => o,
        None => seq!['0'],
    };
    let dbg = match debug {
        Some(d) => d,
        None => seq!['0'],
    };
    if !(profile matches Some(p) && is_release(p)) {
        CMakeBuildType::Debug
    } else if optimizes_for_size(opt) {
        CMakeBuildType::MinSizeRel
    } else if wants_debug_info(dbg) {
        CMakeBuildType::RelWithDebInfo
    } else {
        CMakeBuildType::Release
    }
}

pub open spec fn text_of(s: Option<&str>) -> Option<Seq<char>> {
    match s {
        Some(t) => Some(t@),
        None => None,
    }
}

/// Compares two strings character by character.
pub fn same_text(a: &str, b: &str) -> (r: bool)
    ensures
        r == (a@ == b@),
{
    let n = a.unicode_len();
    if n != b.unicode_len() {
        return false;
    }
    let mut i: usize = 0;
    while i < n
        invariant
            n == a@.len() == b@.len(),
            i <= n,
            a@.take(i as int) == b@.take(i as int),
        decreases n - i,
    {
        if a.get_char(i) != b.get_char(i) {
            return false;
        }
        assert(a@.take(i + 1) =~= a@.take(i as int).push(a@[i as int]));
        assert(b@.take(i + 1) =~= b@.take(i as int).push(b@[i as int]));
        i = i + 1;
    }
    assert(a@.take(n as int) =~= a@);
    assert(b@.take(n as int) =~= b@);
    true
}

/// Maps a cargo profile (`release` or anything else), an optimization level and a debug
/// setting to a CMake build configuration. Size optimization takes precedence over debug
/// information, as CMake has no configuration that combines them.
pub fn select_build_configuration(
    profile: Option<&str>,
    opt_level: Option<&str>,
    debug: Option<&str>,
) -> (r: CMakeBuildType)
    ensures
        r == build_configuration(text_of(profile), text_of(opt_level), text_of(debug)),
{
    proof {
        reveal_strlit("release");
        reveal_strlit("s");
        reveal_strlit("z");
        reveal_strlit("0");
        reveal_strlit("false");
        reveal_strlit("none");
        assert("release"@ =~= seq!['r', 'e', 'l', 'e', 'a', 's', 'e']);
        assert("s"@ =~= seq!['s']);
        assert("z"@ =~= seq!['z']);
        assert("0"@ =~= seq!['0']);
        assert("false"@ =~= seq!['f', 'a', 'l', 's', 'e']);
        assert("none"@ =~= seq!['n', 'o', 'n', 'e']);
    }
    let release = match profile {
        Some(p) => same_text(p, "release"),
        None => false,
    };
    if !release {
        return CMakeBuildType::Debug;
    }
    let opt = match opt_level {
        Some(o) => o,
        None => "0",
    };
    if same_text(opt, "s") || same_text(opt, "z") {
        return CMakeBuildType::MinSizeRel;
    }
    let dbg = match debug {
        Some(d) => d,
        None => "0",
    };
    if !(same_text(dbg, "0") || same_text(dbg, "false") || same_text(dbg, "none")) {
        return CMakeBuildType::RelWithDebInfo;
    }
    CMakeBuildType::Release
}

/// The selector's four rules: any profile but `release` gives `Debug`; under `release`, a size
/// optimization level gives `MinSizeRel` whatever the debug setting; otherwise debug
/// information (`1`, `true`) gives `RelWithDebInfo`, and none (`0`, `false`, `none`, unset)
/// gives `Release`.
pub proof fn lemma_build_configuration_rules()
    ensures
        forall|p: Option<Seq<char>>, o: Option<Seq<char>>, d: Option<Seq<char>>|
            !(p matches Some(q) && is_release(q)) ==> #[trigger] build_configuration(p, o, d)
                == CMakeBuildType::Debug,
        forall|o: Seq<char>, d: Option<Seq<char>>|
            optimizes_for_size(o) ==> #[trigger] build_configuration(
                Some(release_profile()),
                Some(o),
                d,
            ) == CMakeBuildType::MinSizeRel,
        forall|o: Option<Seq<char>>, d: Seq<char>|
            !(o matches Some(x) && optimizes_for_size(x)) && (d == seq!['1'] || d == seq![
                't',
                'r',
                'u',
                'e',
            ]) ==> #[trigger] build_configuration(
                Some(release_profile()),
                o,
                Some(d),
            ) == CMakeBuildType::RelWithDebInfo,
        forall|o: Option<Seq<char>>, d: Option<Seq<char>>|
            !(o matches Some(x) && optimizes_for_size(x)) && (d is None || d == Some(seq!['0'])
                || d == Some(seq!['f', 'a', 'l', 's', 'e']) || d == Some(
                seq!['n', 'o', 'n', 'e'],
            )) ==> #[trigger] build_configuration(
                Some(release_profile()),
                o,
                d,
            ) == CMakeBuildType::Release,
{
    assert(!optimizes_for_size(seq!['0'])) by {
        assert(seq!['0'] != seq!['s']) by {
            assert(seq!['0'][0] != seq!['s'][0]);
        };
        assert(seq!['0'] != seq!['z']) by {
            assert(seq!['0'][0] != seq!['z'][0]);
        };
    };
    assert(wants_debug_info(seq!['1'])) by {
        assert(seq!['1'] != seq!['0']) by {
            assert(seq!['1'][0] != seq!['0'][0]);
        };
        assert(seq!['1'].len() != seq!['f', 'a', 'l', 's', 'e'].len());
        assert(seq!['1'].len() != seq!['n', 'o', 'n', 'e'].len());
    };
    assert(wants_debug_info(seq!['t', 'r', 'u', 'e'])) by {
        assert(seq!['t', 'r', 'u', 'e'].len() != seq!['0'].len());
        assert(seq!['t', 'r', 'u', 'e'].len() != seq!['f', 'a', 'l', 's', 'e'].len());
        assert(seq!['t', 'r', 'u', 'e'] != seq!['n', 'o', 'n', 'e']) by {
            assert(seq!['t', 'r', 'u', 'e'][0] != seq!['n', 'o', 'n', 'e'][0]);
        };
    };
}

impl CMakeBuildType {
    /// The name CMake gives the configuration.
    pub fn name(&self) -> (r: &'static str)
        ensures
            r@ == build_type_name(*self),
    {
        proof {
            reveal_strlit("Debug");
            reveal_strlit("Release");
            reveal_strlit("RelWithDebInfo");
            reveal_strlit("MinSizeRel");
            assert("Debug"@ =~= build_type_name(CMakeBuildType::Debug));
            assert("Release"@ =~= build_type_name(CMakeBuildType::Release));
            assert("RelWithDebInfo"@ =~= build_type_name(CMakeBuildType::RelWithDebInfo));
            assert("MinSizeRel"@ =~= build_type_name(CMakeBuildType::MinSizeRel));
        }
        match self {
            CMakeBuildType::Debug => "Debug",
            CMakeBuildType::Release => "Release",
            CMakeBuildType::RelWithDebInfo => "RelWithDebInfo",
            CMakeBuildType::MinSizeRel => "MinSizeRel",
        }
    }
}

pub open spec fn build_type_name(t: CMakeBuildType) -> Seq<char> {
    match t {
        CMakeBuildType::Debug => seq!['D', 'e', 'b', 'u', 'g'],
        CMakeBuildType::Release => seq!['R', 'e', 'l', 'e', 'a', 's', 'e'],
        CMakeBuildType::RelWithDebInfo => seq![
            'R', 'e', 'l', 'W', 'i', 't', 'h', 'D', 'e', 'b', 'I', 'n', 'f', 'o',
        ],
        CMakeBuildType::MinSizeRel => seq!['M', 'i', 'n', 'S', 'i', 'z', 'e', 'R', 'e', 'l'],
    }
}

} // verus!
