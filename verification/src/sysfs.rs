//! Device names in sysfs and udev: sysnames such as
//! `0003:045E:07A5.000B` and modaliases such as
//! `hid:b0003g0001v0000045Ep000007A5`.
use vstd::prelude::*;
use vstd::string::*;
use crate::text::{push_str_chars, str_eq, string_of};
use crate::paths::{path_file_name, file_name};
use crate::errors::EINVAL;

verus! {

/// What a HID sysname looks like, somewhere in a file name.
pub const SYSNAME_PATTERN: &'static str = r"[A-Z0-9]{4}:[A-Z0-9]{4}:[A-Z0-9]{4}\.[A-Z0-9]{4}";

/// A HID modalias, with the bus, group, vendor and product as groups.
pub const MODALIAS_PATTERN: &'static str = r"hid:b([A-Z0-9]{4})g([A-Z0-9]{4})v0000([A-Z0-9]{4})p0000([A-Z0-9]{4})";

/// Names what the `regex` crate gives for `Regex::new(pattern)` followed by
/// `captures(haystack)`: the groups of the leftmost-first match, group 0
/// being the whole match and `None` for a group that took no part; `None`
/// when nothing matches or the pattern does not compile.  It depends on the
/// pattern and the haystack alone.
pub uninterp spec fn regex_captures(pattern: Seq<char>, haystack: Seq<char>) -> Option<Seq<Option<Seq<char>>>>;

/// The characters of each matched group.
pub open spec fn group_views(groups: Seq<Option<String>>) -> Seq<Option<Seq<char>>> {
    groups.map_values(|g: Option<String>| match g {
        Some(s) => Some(s@),
        None => None,
    })
}

/// Trusted: compiles `pattern` with `regex::Regex::new` and searches
/// `haystack` with `Regex::captures`, turning each group's match into a
/// `String`.  The contract names the result; the crate documents that a
/// match always has at least group 0, which is all that is said of its
/// shape.
#[verifier::external_body]
fn find_captures(pattern: &str, haystack: &str) -> (r: Option<Vec<Option<String>>>)
    ensures
        match regex_captures(pattern@, haystack@) {
            Some(groups) => r matches Some(v) && group_views(v@) == groups && groups.len() > 0,
            None => r is None,
        },
{
    match regex::Regex::new(pattern) {
        Ok(re) => re.captures(haystack).map(|c| c.iter().map(|m| m.map(|m| m.as_str().to_string())).collect()),
        Err(_) => None,
    }
}

// ---------------------------------------------------------------------
// Sysnames
// ---------------------------------------------------------------------

/// The sysname of a device given its (link-resolved) sysfs path: the file
/// name, when it holds something shaped like a HID sysname.
pub open spec fn sysname_of_path(path: Seq<char>) -> Result<Seq<char>, i32> {
    match path_file_name(path) {
        Some(name) => if regex_captures(SYSNAME_PATTERN@, name) is Some {
            Ok(name)
        } else {
            Err(EINVAL)
        },
        None => Err(EINVAL),
    }
}

/// The sysname `name` if the search for a sysname in it found one
/// (`found`), and `EINVAL` otherwise.
pub fn sysname_from_match(name: String, found: Option<Vec<Option<String>>>) -> (r: Result<String, i32>)
    ensures
        match found {
            Some(_) => r matches Ok(s) && s@ == name@,
            None => r == Err::<String, i32>(EINVAL),
        },
{
    match found {
        Some(_) => Ok(name),
        None => Err(EINVAL),
    }
}

/// The sysname of the device at the sysfs path `path` (with any link
/// already resolved): its file name, which must hold something shaped like
/// `0003:04F3:2D4A.0001`; `EINVAL` otherwise.
pub fn sysname_from_syspath(path: &str) -> (r: Result<String, i32>)
    ensures
        match sysname_of_path(path@) {
            Ok(s) => r matches Ok(t) && t@ == s,
            Err(e) => r == Err::<String, i32>(e),
        },
{
    match file_name(path) {
        Some(name) => {
            let found = find_captures(SYSNAME_PATTERN, name.as_str());
            sysname_from_match(name, found)
        },
        None => Err(EINVAL),
    }
}

// ---------------------------------------------------------------------
// Modaliases
// ---------------------------------------------------------------------

/// The bus, group, vendor and product of a modalias match: groups 1 to 4,
/// if each of them took part.
pub open spec fn ids_of_groups(groups: Seq<Option<Seq<char>>>) -> Option<(Seq<char>, Seq<char>, Seq<char>, Seq<char>)> {
    if groups.len() >= 5 && groups[1] is Some && groups[2] is Some && groups[3] is Some && groups[4] is Some {
        Some((groups[1]->Some_0, groups[2]->Some_0, groups[3]->Some_0, groups[4]->Some_0))
    } else {
        None
    }
}

fn group_at(v: &Vec<Option<String>>, i: usize) -> (r: Option<String>)
    requires
        i < v@.len(),
    ensures
        match v@[i as int] {
            Some(s) => r matches Some(t) && t@ == s@,
            None => r is None,
        },
{
    match &v[i] {
        Some(s) => Some(s.clone()),
        None => None,
    }
}

/// The bus, group, vendor and product from the groups of a modalias match
/// (groups 1 to 4), if there are that many and each took part.
pub fn ids_from_captures(found: Option<Vec<Option<String>>>) -> (r: Option<(String, String, String, String)>)
    ensures
        match found {
            Some(v) => match ids_of_groups(group_views(v@)) {
                Some(ids) => r matches Some(t) && t.0@ == ids.0 && t.1@ == ids.1 && t.2@ == ids.2 && t.3@
                    == ids.3,
                None => r is None,
            },
            None => r is None,
        },
{
    match found {
        Some(v) => {
            if v.len() >= 5 {
                match (group_at(&v, 1), group_at(&v, 2), group_at(&v, 3), group_at(&v, 4)) {
                    (Some(b), Some(g), Some(vid), Some(pid)) => Some((b, g, vid, pid)),
                    _ => None,
                }
            } else {
                None
            }
        },
        None => None,
    }
}

/// The bus, group, vendor and product of a modalias, each four upper case
/// hexadecimal digits as the modalias writes them.
pub open spec fn modalias_id_strings(modalias: Seq<char>) -> Option<(Seq<char>, Seq<char>, Seq<char>, Seq<char>)> {
    match regex_captures(MODALIAS_PATTERN@, modalias) {
        Some(groups) => ids_of_groups(groups),
        None => None,
    }
}

/// The bus, group, vendor and product of a HID modalias such as
/// `hid:b0003g0001v0000045Ep000007A5`.
pub fn modalias_ids(modalias: &str) -> (r: Option<(String, String, String, String)>)
    ensures
        match modalias_id_strings(modalias@) {
            Some(ids) => r matches Some(t) && t.0@ == ids.0 && t.1@ == ids.1 && t.2@ == ids.2 && t.3@ == ids.3,
            None => r is None,
        },
{
    let found = find_captures(MODALIAS_PATTERN, modalias);
    ids_from_captures(found)
}

/// The kernel's name for a bus number as a modalias writes it; any other
/// text stands for itself.
pub open spec fn bus_name_of(code: Seq<char>) -> Seq<char> {
    if code == "0001"@ { "BUS_PCI"@ }
    else if code == "0002"@ { "BUS_ISAPNP"@ }
    else if code == "0003"@ { "BUS_USB"@ }
    else if code == "0004"@ { "BUS_HIL"@ }
    else if code == "0005"@ { "BUS_BLUETOOTH"@ }
    else if code == "0006"@ { "BUS_VIRTUAL"@ }
    else if code == "0010"@ { "BUS_ISA"@ }
    else if code == "0011"@ { "BUS_I8042"@ }
    else if code == "0012"@ { "BUS_XTKBD"@ }
    else if code == "0013"@ { "BUS_RS232"@ }
    else if code == "0014"@ { "BUS_GAMEPORT"@ }
    else if code == "0015"@ { "BUS_PARPORT"@ }
    else if code == "0016"@ { "BUS_AMIGA"@ }
    else if code == "0017"@ { "BUS_ADB"@ }
    else if code == "0018"@ { "BUS_I2C"@ }
    else if code == "0019"@ { "BUS_HOST"@ }
    else if code == "001A"@ { "BUS_GSC"@ }
    else if code == "001B"@ { "BUS_ATARI"@ }
    else if code == "001C"@ { "BUS_SPI"@ }
    else if code == "001D"@ { "BUS_RMI"@ }
    else if code == "001E"@ { "BUS_CEC"@ }
    else if code == "001F"@ { "BUS_INTEL_ISHTP"@ }
    else if code == "0020"@ { "BUS_AMD_SFH"@ }
    else { code }
}

/// The four upper case hexadecimal digits a modalias gives a bus or group
/// number `n < 65536` (`b0005` for bus 5, `g0101` for group 0x101).
pub open spec fn modalias_code(n: nat) -> Seq<char> {
    seq![
        crate::hex::hex_upper_char(n / 4096),
        crate::hex::hex_upper_char(n / 256 % 16),
        crate::hex::hex_upper_char(n / 16 % 16),
        crate::hex::hex_upper_char(n % 16),
    ]
}

/// The bus constants of the kernel's `include/uapi/linux/input.h`, as
/// (number, name): `#define BUS_PCI 0x01` ... `#define BUS_AMD_SFH 0x20`.
pub open spec fn kernel_bus_constants() -> Seq<(nat, Seq<char>)> {
    seq![
        (0x01nat, "BUS_PCI"@),
        (0x02nat, "BUS_ISAPNP"@),
        (0x03nat, "BUS_USB"@),
        (0x04nat, "BUS_HIL"@),
        (0x05nat, "BUS_BLUETOOTH"@),
        (0x06nat, "BUS_VIRTUAL"@),
        (0x10nat, "BUS_ISA"@),
        (0x11nat, "BUS_I8042"@),
        (0x12nat, "BUS_XTKBD"@),
        (0x13nat, "BUS_RS232"@),
        (0x14nat, "BUS_GAMEPORT"@),
        (0x15nat, "BUS_PARPORT"@),
        (0x16nat, "BUS_AMIGA"@),
        (0x17nat, "BUS_ADB"@),
        (0x18nat, "BUS_I2C"@),
        (0x19nat, "BUS_HOST"@),
        (0x1Anat, "BUS_GSC"@),
        (0x1Bnat, "BUS_ATARI"@),
        (0x1Cnat, "BUS_SPI"@),
        (0x1Dnat, "BUS_RMI"@),
        (0x1Enat, "BUS_CEC"@),
        (0x1Fnat, "BUS_INTEL_ISHTP"@),
        (0x20nat, "BUS_AMD_SFH"@),
    ]
}

/// Each bus number that the kernel defines, written as a modalias writes
/// it, is given the name of its kernel constant.
pub proof fn lemma_bus_names_follow_kernel_numbers()
    ensures
        forall|k: int|
            0 <= k < kernel_bus_constants().len() ==> bus_name_of(
                modalias_code((#[trigger] kernel_bus_constants()[k]).0),
            ) == kernel_bus_constants()[k].1,
{
    reveal_strlit("0001");
    reveal_strlit("0002");
    reveal_strlit("0003");
    reveal_strlit("0004");
    reveal_strlit("0005");
    reveal_strlit("0006");
    reveal_strlit("0010");
    reveal_strlit("0011");
    reveal_strlit("0012");
    reveal_strlit("0013");
    reveal_strlit("0014");
    reveal_strlit("0015");
    reveal_strlit("0016");
    reveal_strlit("0017");
    reveal_strlit("0018");
    reveal_strlit("0019");
    reveal_strlit("001A");
    reveal_strlit("001B");
    reveal_strlit("001C");
    reveal_strlit("001D");
    reveal_strlit("001E");
    reveal_strlit("001F");
    reveal_strlit("0020");
    assert(modalias_code(0x01) =~= "0001"@);
    assert(bus_name_of(modalias_code(0x01)) == "BUS_PCI"@);
    assert(modalias_code(0x02) =~= "0002"@);
    assert(bus_name_of(modalias_code(0x02)) == "BUS_ISAPNP"@);
    assert(modalias_code(0x03) =~= "0003"@);
    assert(bus_name_of(modalias_code(0x03)) == "BUS_USB"@);
    assert(modalias_code(0x04) =~= "0004"@);
    assert(bus_name_of(modalias_code(0x04)) == "BUS_HIL"@);
    assert(modalias_code(0x05) =~= "0005"@);
    assert(bus_name_of(modalias_code(0x05)) == "BUS_BLUETOOTH"@);
    assert(modalias_code(0x06) =~= "0006"@);
    assert(bus_name_of(modalias_code(0x06)) == "BUS_VIRTUAL"@);
    assert(modalias_code(0x10) =~= "0010"@);
    assert(bus_name_of(modalias_code(0x10)) == "BUS_ISA"@);
    assert(modalias_code(0x11) =~= "0011"@);
    assert(bus_name_of(modalias_code(0x11)) == "BUS_I8042"@);
    assert(modalias_code(0x12) =~= "0012"@);
    assert(bus_name_of(modalias_code(0x12)) == "BUS_XTKBD"@);
    assert(modalias_code(0x13) =~= "0013"@);
    assert(bus_name_of(modalias_code(0x13)) == "BUS_RS232"@);
    assert(modalias_code(0x14) =~= "0014"@);
    assert(bus_name_of(modalias_code(0x14)) == "BUS_GAMEPORT"@);
    assert(modalias_code(0x15) =~= "0015"@);
    assert(bus_name_of(modalias_code(0x15)) == "BUS_PARPORT"@);
    assert(modalias_code(0x16) =~= "0016"@);
    assert(bus_name_of(modalias_code(0x16)) == "BUS_AMIGA"@);
    assert(modalias_code(0x17) =~= "0017"@);
    assert(bus_name_of(modalias_code(0x17)) == "BUS_ADB"@);
    assert(modalias_code(0x18) =~= "0018"@);
    assert(bus_name_of(modalias_code(0x18)) == "BUS_I2C"@);
    assert(modalias_code(0x19) =~= "0019"@);
    assert(bus_name_of(modalias_code(0x19)) == "BUS_HOST"@);
    assert(modalias_code(0x1A) =~= "001A"@);
    assert(bus_name_of(modalias_code(0x1A)) == "BUS_GSC"@);
    assert(modalias_code(0x1B) =~= "001B"@);
    assert(bus_name_of(modalias_code(0x1B)) == "BUS_ATARI"@);
    assert(modalias_code(0x1C) =~= "001C"@);
    assert(bus_name_of(modalias_code(0x1C)) == "BUS_SPI"@);
    assert(modalias_code(0x1D) =~= "001D"@);
    assert(bus_name_of(modalias_code(0x1D)) == "BUS_RMI"@);
    assert(modalias_code(0x1E) =~= "001E"@);
    assert(bus_name_of(modalias_code(0x1E)) == "BUS_CEC"@);
    assert(modalias_code(0x1F) =~= "001F"@);
    assert(bus_name_of(modalias_code(0x1F)) == "BUS_INTEL_ISHTP"@);
    assert(modalias_code(0x20) =~= "0020"@);
    assert(bus_name_of(modalias_code(0x20)) == "BUS_AMD_SFH"@);
    let t = kernel_bus_constants();
    assert(t.len() == 23);
    assert forall|k: int| 0 <= k < t.len() implies bus_name_of(modalias_code((#[trigger] t[k]).0)) == t[k].1 by {
        assert(0 <= k < 23);
    }
}

/// The kernel's name for a bus number such as `0003` (`BUS_USB`); an
/// unknown number is returned as it is.
pub fn bus_name(code: &str) -> (r: String)
    ensures
        r@ == bus_name_of(code@),
{
    let name = if str_eq(code, "0001") { "BUS_PCI" }
    else if str_eq(code, "0002") { "BUS_ISAPNP" }
    else if str_eq(code, "0003") { "BUS_USB" }
    else if str_eq(code, "0004") { "BUS_HIL" }
    else if str_eq(code, "0005") { "BUS_BLUETOOTH" }
    else if str_eq(code, "0006") { "BUS_VIRTUAL" }
    else if str_eq(code, "0010") { "BUS_ISA" }
    else if str_eq(code, "0011") { "BUS_I8042" }
    else if str_eq(code, "0012") { "BUS_XTKBD" }
    else if str_eq(code, "0013") { "BUS_RS232" }
    else if str_eq(code, "0014") { "BUS_GAMEPORT" }
    else if str_eq(code, "0015") { "BUS_PARPORT" }
    else if str_eq(code, "0016") { "BUS_AMIGA" }
    else if str_eq(code, "0017") { "BUS_ADB" }
    else if str_eq(code, "0018") { "BUS_I2C" }
    else if str_eq(code, "0019") { "BUS_HOST" }
    else if str_eq(code, "001A") { "BUS_GSC" }
    else if str_eq(code, "001B") { "BUS_ATARI" }
    else if str_eq(code, "001C") { "BUS_SPI" }
    else if str_eq(code, "001D") { "BUS_RMI" }
    else if str_eq(code, "001E") { "BUS_CEC" }
    else if str_eq(code, "001F") { "BUS_INTEL_ISHTP" }
    else if str_eq(code, "0020") { "BUS_AMD_SFH" }
    else { code };
    string_of(name)
}

/// The kernel's name for a HID group number as a modalias writes it; any
/// other text stands for itself.
pub open spec fn group_name_of(code: Seq<char>) -> Seq<char> {
    if code == "0001"@ { "HID_GROUP_GENERIC"@ }
    else if code == "0002"@ { "HID_GROUP_MULTITOUCH"@ }
    else if code == "0003"@ { "HID_GROUP_SENSOR_HUB"@ }
    else if code == "0004"@ { "HID_GROUP_MULTITOUCH_WIN_8"@ }
    else if code == "0100"@ { "HID_GROUP_RMI"@ }
    else if code == "0101"@ { "HID_GROUP_WACOM"@ }
    else if code == "0102"@ { "HID_GROUP_LOGITECH_DJ_DEVICE"@ }
    else if code == "0103"@ { "HID_GROUP_STEAM"@ }
    else if code == "0104"@ { "HID_GROUP_LOGITECH_27MHZ_DEVICE"@ }
    else if code == "0105"@ { "HID_GROUP_VIVALDI"@ }
    else { code }
}

/// The HID group constants of the kernel's `include/linux/hid.h`, as
/// (number, name): `#define HID_GROUP_GENERIC 0x0001` ...
/// `#define HID_GROUP_VIVALDI 0x0105`.
pub open spec fn kernel_group_constants() -> Seq<(nat, Seq<char>)> {
    seq![
        (0x0001nat, "HID_GROUP_GENERIC"@),
        (0x0002nat, "HID_GROUP_MULTITOUCH"@),
        (0x0003nat, "HID_GROUP_SENSOR_HUB"@),
        (0x0004nat, "HID_GROUP_MULTITOUCH_WIN_8"@),
        (0x0100nat, "HID_GROUP_RMI"@),
        (0x0101nat, "HID_GROUP_WACOM"@),
        (0x0102nat, "HID_GROUP_LOGITECH_DJ_DEVICE"@),
        (0x0103nat, "HID_GROUP_STEAM"@),
        (0x0104nat, "HID_GROUP_LOGITECH_27MHZ_DEVICE"@),
        (0x0105nat, "HID_GROUP_VIVALDI"@),
    ]
}

/// Each HID group number that the kernel defines, written as a modalias
/// writes it, is given the name of its kernel constant.
pub proof fn lemma_group_names_follow_kernel_numbers()
    ensures
        forall|k: int|
            0 <= k < kernel_group_constants().len() ==> group_name_of(
                modalias_code((#[trigger] kernel_group_constants()[k]).0),
            ) == kernel_group_constants()[k].1,
{
    reveal_strlit("0001");
    reveal_strlit("0002");
    reveal_strlit("0003");
    reveal_strlit("0004");
    reveal_strlit("0100");
    reveal_strlit("0101");
    reveal_strlit("0102");
    reveal_strlit("0103");
    reveal_strlit("0104");
    reveal_strlit("0105");
    assert(modalias_code(0x0001) =~= "0001"@);
    assert(group_name_of(modalias_code(0x0001)) == "HID_GROUP_GENERIC"@);
    assert(modalias_code(0x0002) =~= "0002"@);
    assert(group_name_of(modalias_code(0x0002)) == "HID_GROUP_MULTITOUCH"@);
    assert(modalias_code(0x0003) =~= "0003"@);
    assert(group_name_of(modalias_code(0x0003)) == "HID_GROUP_SENSOR_HUB"@);
    assert(modalias_code(0x0004) =~= "0004"@);
    assert(group_name_of(modalias_code(0x0004)) == "HID_GROUP_MULTITOUCH_WIN_8"@);
    assert(modalias_code(0x0100) =~= "0100"@);
    assert(group_name_of(modalias_code(0x0100)) == "HID_GROUP_RMI"@);
    assert(modalias_code(0x0101) =~= "0101"@);
    assert(group_name_of(modalias_code(0x0101)) == "HID_GROUP_WACOM"@);
    assert(modalias_code(0x0102) =~= "0102"@);
    assert(group_name_of(modalias_code(0x0102)) == "HID_GROUP_LOGITECH_DJ_DEVICE"@);
    assert(modalias_code(0x0103) =~= "0103"@);
    assert(group_name_of(modalias_code(0x0103)) == "HID_GROUP_STEAM"@);
    assert(modalias_code(0x0104) =~= "0104"@);
    assert(group_name_of(modalias_code(0x0104)) == "HID_GROUP_LOGITECH_27MHZ_DEVICE"@);
    assert(modalias_code(0x0105) =~= "0105"@);
    assert(group_name_of(modalias_code(0x0105)) == "HID_GROUP_VIVALDI"@);
    let t = kernel_group_constants();
    assert(t.len() == 10);
    assert forall|k: int| 0 <= k < t.len() implies group_name_of(modalias_code((#[trigger] t[k]).0)) == t[k].1 by {
        assert(0 <= k < 10);
    }
}

/// The kernel's name for a HID group number such as `0001`
/// (`HID_GROUP_GENERIC`); an unknown number is returned as it is.
pub fn group_name(code: &str) -> (r: String)
    ensures
        r@ == group_name_of(code@),
{
    let name = if str_eq(code, "0001") { "HID_GROUP_GENERIC" }
    else if str_eq(code, "0002") { "HID_GROUP_MULTITOUCH" }
    else if str_eq(code, "0003") { "HID_GROUP_SENSOR_HUB" }
    else if str_eq(code, "0004") { "HID_GROUP_MULTITOUCH_WIN_8" }
    else if str_eq(code, "0100") { "HID_GROUP_RMI" }
    else if str_eq(code, "0101") { "HID_GROUP_WACOM" }
    else if str_eq(code, "0102") { "HID_GROUP_LOGITECH_DJ_DEVICE" }
    else if str_eq(code, "0103") { "HID_GROUP_STEAM" }
    else if str_eq(code, "0104") { "HID_GROUP_LOGITECH_27MHZ_DEVICE" }
    else if str_eq(code, "0105") { "HID_GROUP_VIVALDI" }
    else { code };
    string_of(name)
}

/// `HID_DEVICE(<bus>, <group>, 0x<vid>, 0x<pid>)`, the way a BPF object
/// declares the device.
pub open spec fn device_entry_text(bus: Seq<char>, group: Seq<char>, vid: Seq<char>, pid: Seq<char>) -> Seq<char> {
    "HID_DEVICE("@ + bus_name_of(bus) + ", "@ + group_name_of(group) + ", 0x"@ + vid + ", 0x"@ + pid + ")"@
}

/// The `HID_DEVICE(...)` entry that declares a device with the given
/// modalias ids, with the bus and group by their kernel names.
pub fn device_entry(bus: &str, group: &str, vid: &str, pid: &str) -> (r: String)
    ensures
        r@ == device_entry_text(bus@, group@, vid@, pid@),
{
    let b = bus_name(bus);
    let g = group_name(group);
    let mut s = String::new();
    push_str_chars(&mut s, "HID_DEVICE(");
    push_str_chars(&mut s, b.as_str());
    push_str_chars(&mut s, ", ");
    push_str_chars(&mut s, g.as_str());
    push_str_chars(&mut s, ", 0x");
    push_str_chars(&mut s, vid);
    push_str_chars(&mut s, ", 0x");
    push_str_chars(&mut s, pid);
    push_str_chars(&mut s, ")");
    assert(s@ =~= device_entry_text(bus@, group@, vid@, pid@));
    s
}

/// Whether a device is listed: always, unless only devices with loaded
/// BPF objects are asked for and it has none.
pub fn lists_device(with_bpfs_only: bool, bpf_count: usize) -> (r: bool)
    ensures
        r == (!with_bpfs_only || bpf_count > 0),
{
    !with_bpfs_only || bpf_count > 0
}

} // verus!
