//! Where Sober and Lemonyde keep their files. Paths are byte strings, as
//! Unix paths are; joining follows `PathBuf::push` on Unix.

use vstd::prelude::*;
use crate::number::{all_digits, lemma_nat_text, nat_text, nat_to_chars};
use crate::text::chars_of;
use vstd::string::StringSliceAdditionalSpecFns;

verus! {

/// The byte `/`, which separates the components of a path.
pub const SLASH: u8 = 0x2f;

/// The byte `.`.
pub const DOT: u8 = 0x2e;

/// `base` joined with `rel` as `Path::join` does on Unix: an absolute
/// `rel` replaces `base`; otherwise a `/` is put between them unless
/// `base` is empty or already ends in `/`.
pub open spec fn joined(base: Seq<u8>, rel: Seq<u8>) -> Seq<u8> {
    if rel.len() > 0 && rel[0] == SLASH {
        rel
    } else if base.len() == 0 || base.last() == SLASH {
        base + rel
    } else {
        base + seq![SLASH] + rel
    }
}

/// `base` joined with `rel` (see [`joined`]).
pub fn join(base: &[u8], rel: &[u8]) -> (r: Vec<u8>)
    ensures
        r@ == joined(base@, rel@),
{
    let mut r: Vec<u8> = Vec::new();
    if rel.len() > 0 && rel[0] == SLASH {
        push_bytes(&mut r, rel);
        assert(r@ =~= rel@);
        return r;
    }
    push_bytes(&mut r, base);
    if base.len() > 0 && base[base.len() - 1] != SLASH {
        r.push(SLASH);
    }
    push_bytes(&mut r, rel);
    r
}

/// Appends `s` to `out`.
pub fn push_bytes(out: &mut Vec<u8>, s: &[u8])
    ensures
        final(out)@ == old(out)@ + s@,
{
    let ghost start = out@;
    let mut i: usize = 0;
    while i < s.len()
        invariant
            i <= s.len(),
            out@ == start + s@.take(i as int),
        decreases s.len() - i,
    {
        out.push(s[i]);
        i += 1;
        assert(out@ =~= start + s@.take(i as int));
    }
    assert(s@.take(s.len() as int) =~= s@);
}

/// The bytes of a text of ASCII characters.
pub open spec fn ascii_bytes(s: Seq<char>) -> Seq<u8> {
    s.map_values(|c: char| c as u8)
}

/// The bytes of an ASCII text.
fn ascii_to_bytes(cs: &Vec<char>) -> (r: Vec<u8>)
    ensures
        r@ == ascii_bytes(cs@),
{
    let mut r: Vec<u8> = Vec::new();
    let mut i: usize = 0;
    while i < cs.len()
        invariant
            i <= cs.len(),
            r@ == ascii_bytes(cs@.take(i as int)),
        decreases cs.len() - i,
    {
        r.push(cs[i] as u8);
        i += 1;
        assert(r@ =~= ascii_bytes(cs@.take(i as int)));
    }
    assert(cs@.take(cs.len() as int) =~= cs@);
    r
}

/// The user's home directory, or `.` when it is not known.
pub open spec fn home_or_current(home: Option<Seq<u8>>) -> Seq<u8> {
    match home {
        Some(h) => h,
        None => ".".spec_bytes(),
    }
}

/// The user's home directory, or `.` when it is not known.
pub fn real_home(home: Option<Vec<u8>>) -> (r: Vec<u8>)
    ensures
        r@ == home_or_current(
            match home {
                Some(h) => Some(h@),
                None => None,
            },
        ),
{
    match home {
        Some(h) => h,
        None => {
            let mut r: Vec<u8> = Vec::new();
            push_bytes(&mut r, ".".as_bytes());
            r
        },
    }
}

/// An XDG base directory: the environment variable's value when it is set
/// (even to an empty value), else `fallback` under the home directory.
pub open spec fn xdg_dir_spec(var: Option<Seq<u8>>, home: Seq<u8>, fallback: Seq<u8>) -> Seq<u8> {
    match var {
        Some(v) => v,
        None => joined(home, fallback),
    }
}

/// An XDG base directory (see [`xdg_dir_spec`]); `fallback` is
/// `.local/share`, `.config` or `.cache`.
pub fn xdg_dir(var: Option<Vec<u8>>, home: &[u8], fallback: &str) -> (r: Vec<u8>)
    ensures
        r@ == xdg_dir_spec(
            match var {
                Some(v) => Some(v@),
                None => None,
            },
            home@,
            fallback.spec_bytes(),
        ),
{
    match var {
        Some(v) => v,
        None => join(home, fallback.as_bytes()),
    }
}

/// The directory that holds the instance slots, under the XDG data home.
pub open spec fn instances_dir_spec(data_home: Seq<u8>) -> Seq<u8> {
    joined(data_home, "lemonyde/instances".spec_bytes())
}

/// The directory that holds the instance slots.
pub fn instances_dir(data_home: &[u8]) -> (r: Vec<u8>)
    ensures
        r@ == instances_dir_spec(data_home@),
{
    join(data_home, "lemonyde/instances".as_bytes())
}

/// The name of slot `n`'s directory: `slot-` and the number.
pub open spec fn slot_name(n: nat) -> Seq<u8> {
    ascii_bytes("slot-"@ + nat_text(n))
}

/// The isolated home directory of instance slot `n`.
pub open spec fn slot_home_spec(instances: Seq<u8>, n: nat) -> Seq<u8> {
    joined(instances, slot_name(n))
}

/// The isolated home directory of instance slot `n` (see [`slot_home_spec`]).
pub fn slot_home(instances: &[u8], n: u32) -> (r: Vec<u8>)
    ensures
        r@ == slot_home_spec(instances@, n as nat),
{
    let mut cs = chars_of("slot-");
    let mut digits = nat_to_chars(n as u128);
    cs.append(&mut digits);
    let name = ascii_to_bytes(&cs);
    join(instances, name.as_slice())
}

/// Joining a base with two relative paths that do not start with `/`
/// gives the same path only for equal relative paths.
proof fn lemma_joined_injective(base: Seq<u8>, x: Seq<u8>, y: Seq<u8>)
    requires
        x.len() > 0 && x[0] != SLASH,
        y.len() > 0 && y[0] != SLASH,
        joined(base, x) == joined(base, y),
    ensures
        x == y,
{
    if base.len() == 0 || base.last() == SLASH {
        assert(x =~= joined(base, x).subrange(base.len() as int, joined(base, x).len() as int));
        assert(y =~= joined(base, y).subrange(base.len() as int, joined(base, y).len() as int));
    } else {
        assert(x =~= joined(base, x).subrange(base.len() as int + 1, joined(base, x).len() as int));
        assert(y =~= joined(base, y).subrange(base.len() as int + 1, joined(base, y).len() as int));
    }
}

/// Slots with different numbers get different home directories, so no two
/// slots share a lock file, config or login.
pub proof fn law_slot_homes_distinct(instances: Seq<u8>, a: nat, b: nat)
    requires
        a != b,
    ensures
        slot_home_spec(instances, a) != slot_home_spec(instances, b),
{
    reveal_strlit("slot-");
    lemma_nat_text(a);
    lemma_nat_text(b);
    let ca = "slot-"@ + nat_text(a);
    let cb = "slot-"@ + nat_text(b);
    assert(slot_name(a)[0] == ('s' as u8));
    assert(slot_name(b)[0] == ('s' as u8));
    if slot_home_spec(instances, a) == slot_home_spec(instances, b) {
        lemma_joined_injective(instances, slot_name(a), slot_name(b));
        assert(ca.len() == cb.len());
        assert(nat_text(a) =~= nat_text(b)) by {
            assert forall|i: int| 0 <= i < nat_text(a).len() implies nat_text(a)[i] == nat_text(b)[i] by {
                assert(slot_name(a)[i + 5] == slot_name(b)[i + 5]);
                assert(ca[i + 5] == nat_text(a)[i]);
                assert(cb[i + 5] == nat_text(b)[i]);
                assert(all_digits(nat_text(a)));
                assert(all_digits(nat_text(b)));
                assert(crate::number::is_digit(nat_text(a)[i]));
                assert(crate::number::is_digit(nat_text(b)[i]));
            }
        }
    }
}

/// Sober's own directory under the home directory.
pub open spec fn sober_base(home: Seq<u8>) -> Seq<u8> {
    joined(joined(home, ".var/app".spec_bytes()), "org.vinegarhq.Sober".spec_bytes())
}

/// The locations of Sober's files under one home directory.
#[derive(Debug)]
pub struct Paths {
    /// `config/sober` under Sober's directory.
    pub config_dir: Vec<u8>,
    /// `config.json` in the config directory.
    pub config_file: Vec<u8>,
    /// Where the previous `config.json` is kept before a save.
    pub config_backup: Vec<u8>,
    /// `data/sober` under Sober's directory.
    pub data_dir: Vec<u8>,
    /// Roblox's own generated `ClientAppSettings.json`.
    pub client_settings: Vec<u8>,
    /// The asset overlay directory.
    pub asset_overlay: Vec<u8>,
}

impl Paths {
    /// The config directory of Sober under `home`.
    pub open spec fn config_dir_spec(home: Seq<u8>) -> Seq<u8> {
        joined(sober_base(home), "config/sober".spec_bytes())
    }

    /// The data directory of Sober under `home`.
    pub open spec fn data_dir_spec(home: Seq<u8>) -> Seq<u8> {
        joined(sober_base(home), "data/sober".spec_bytes())
    }

    /// The paths of Sober's files under `home`.
    pub fn new(home: &[u8]) -> (p: Paths)
        ensures
            p.config_dir@ == Self::config_dir_spec(home@),
            p.config_file@ == joined(Self::config_dir_spec(home@), "config.json".spec_bytes()),
            p.config_backup@ == joined(Self::config_dir_spec(home@), "config.json.bak".spec_bytes()),
            p.data_dir@ == Self::data_dir_spec(home@),
            p.client_settings@ == joined(
                Self::data_dir_spec(home@),
                "exe/ClientSettings/ClientAppSettings.json".spec_bytes(),
            ),
            p.asset_overlay@ == joined(Self::data_dir_spec(home@), "asset_overlay".spec_bytes()),
    {
        let var_app = join(home, ".var/app".as_bytes());
        let base = join(var_app.as_slice(), "org.vinegarhq.Sober".as_bytes());
        let config_dir = join(base.as_slice(), "config/sober".as_bytes());
        let data_dir = join(base.as_slice(), "data/sober".as_bytes());
        Paths {
            config_file: join(config_dir.as_slice(), "config.json".as_bytes()),
            config_backup: join(config_dir.as_slice(), "config.json.bak".as_bytes()),
            client_settings: join(
                data_dir.as_slice(),
                "exe/ClientSettings/ClientAppSettings.json".as_bytes(),
            ),
            asset_overlay: join(data_dir.as_slice(), "asset_overlay".as_bytes()),
            config_dir,
            data_dir,
        }
    }
}

/// The directory of the cursor images in the asset overlay.
pub open spec fn cursor_dir_spec(asset_overlay: Seq<u8>) -> Seq<u8> {
    joined(asset_overlay, "content/textures/Cursors/KeyboardMouse".spec_bytes())
}

/// The directory of the fonts in the asset overlay.
pub open spec fn font_dir_spec(asset_overlay: Seq<u8>) -> Seq<u8> {
    joined(asset_overlay, "content/fonts".spec_bytes())
}

/// The directory of the cursor images in the asset overlay.
pub fn cursor_dir(asset_overlay: &[u8]) -> (r: Vec<u8>)
    ensures
        r@ == cursor_dir_spec(asset_overlay@),
{
    join(asset_overlay, "content/textures/Cursors/KeyboardMouse".as_bytes())
}

/// The directory of the fonts in the asset overlay.
pub fn font_dir(asset_overlay: &[u8]) -> (r: Vec<u8>)
    ensures
        r@ == font_dir_spec(asset_overlay@),
{
    join(asset_overlay, "content/fonts".as_bytes())
}

/// A component `..` starts at index `i` of `name`.
pub open spec fn parent_component_at(name: Seq<u8>, i: int) -> bool {
    &&& 0 <= i
    &&& i + 2 <= name.len()
    &&& name[i] == DOT
    &&& name[i + 1] == DOT
    &&& (i == 0 || name[i - 1] == SLASH)
    &&& (i + 2 == name.len() || name[i + 2] == SLASH)
}

/// A file name that stays inside the folder it is joined to: not empty,
/// not absolute, and with no `..` component.
pub open spec fn stays_inside(name: Seq<u8>) -> bool {
    &&& name.len() > 0
    &&& name[0] != SLASH
    &&& forall|i: int| !#[trigger] parent_component_at(name, i)
}

/// Where a font given by file name goes: inside the fonts directory of the
/// asset overlay, or nowhere when the name would leave that directory.
pub fn font_target(asset_overlay: &[u8], name: &[u8]) -> (r: Option<Vec<u8>>)
    ensures
        stays_inside(name@) ==> (r matches Some(p) && p@ == joined(font_dir_spec(asset_overlay@), name@)),
        !stays_inside(name@) ==> r is None,
{
    if name.len() == 0 || name[0] == SLASH {
        return None;
    }
    let mut i: usize = 0;
    while i + 1 < name.len()
        invariant
            name.len() > 0,
            i < name.len(),
            forall|j: int| 0 <= j < i ==> !#[trigger] parent_component_at(name@, j),
        decreases name.len() - i,
    {
        if name[i] == DOT && name[i + 1] == DOT && (i == 0 || name[i - 1] == SLASH) && (i + 2
            == name.len() || name[i + 2] == SLASH) {
            assert(parent_component_at(name@, i as int));
            return None;
        }
        i += 1;
    }
    assert forall|j: int| !#[trigger] parent_component_at(name@, j) by {
        if 0 <= j < i {
        }
    }
    let dir = font_dir(asset_overlay);
    Some(join(dir.as_slice(), name))
}

/// A font placed by [`font_target`] lands inside the fonts directory: the
/// path is the directory, a separator unless the directory ends in one,
/// and a name that neither starts with `/` nor climbs out with `..`.
pub proof fn law_font_target_inside(asset_overlay: Seq<u8>, name: Seq<u8>)
    requires
        stays_inside(name),
    ensures
        ({
            let dir = font_dir_spec(asset_overlay);
            let p = joined(dir, name);
            &&& p.take(dir.len() as int) == dir
            &&& (dir.len() == 0 || dir.last() == SLASH) ==> p.skip(dir.len() as int) == name
            &&& !(dir.len() == 0 || dir.last() == SLASH) ==> p.skip(dir.len() as int) == seq![SLASH] + name
        }),
{
    let dir = font_dir_spec(asset_overlay);
    let p = joined(dir, name);
    if dir.len() == 0 || dir.last() == SLASH {
        assert(p =~= dir + name);
        assert(p.take(dir.len() as int) =~= dir);
        assert(p.skip(dir.len() as int) =~= name);
    } else {
        assert(p =~= dir + seq![SLASH] + name);
        assert(p.take(dir.len() as int) =~= dir);
        assert(p.skip(dir.len() as int) =~= seq![SLASH] + name);
    }
}

} // verus!
