//! The device catalog.
//!
//! Enumeration backends hand the catalog one `LinkEntry` per readable entry
//! of a directory of stable device-identity symbolic links.  The catalog
//! keeps the entries whose link name denotes a whole disk on a supported
//! bus, extracts the vendor/model token as the device's name, and records
//! the canonical device path and the capacity in mebibytes.  `device_path`
//! resolves a user-typed identifier against such a catalog.

use vstd::prelude::*;

verus! {

/// Number of bytes in one mebibyte.
pub const BYTES_PER_MEBIBYTE: u64 = 1024 * 1024;

/// One candidate target disk, constructed fresh on every enumeration pass
/// and never mutated.
#[derive(Clone, Debug)]
pub struct Device {
    /// Short human-meaningful identifier: the vendor/model token of the
    /// device's stable symbolic link name.
    pub name: String,
    /// Canonical absolute path of the block-device node.
    pub path: String,
    /// Device capacity in mebibytes, observed at enumeration time.
    pub mbytes: u64,
}

/// The mathematical image of a `Device`.
pub struct DeviceView {
    pub name: Seq<char>,
    pub path: Seq<char>,
    pub mbytes: u64,
}

impl View for Device {
    type V = DeviceView;

    open spec fn view(&self) -> DeviceView {
        DeviceView { name: self.name@, path: self.path@, mbytes: self.mbytes }
    }
}

/// One readable entry of the stable-link directory, as an enumeration
/// backend hands it to the catalog: the link's file name, the canonical
/// path the link resolves to, and the byte length reported for that path.
pub struct LinkEntry {
    pub link_name: String,
    pub dev_path: String,
    pub byte_len: u64,
}

/// A hard failure of device resolution, distinct from "no such device":
/// the input was no catalog name and could not be canonicalized to an
/// existing filesystem path.
#[derive(Clone, Copy, Debug, PartialEq, Eq, Structural)]
pub enum ResolveError {
    Canonicalize,
}

/// Position of the first occurrence of `c` in `s` at or after `from`,
/// or `s.len()` when there is none.
pub open spec fn first_index_from(s: Seq<char>, c: char, from: int) -> int
    decreases s.len() - from,
{
    if from >= s.len() {
        s.len() as int
    } else if s[from] == c {
        from
    } else {
        first_index_from(s, c, from + 1)
    }
}

proof fn lemma_first_index_from(s: Seq<char>, c: char, from: int)
    requires
        0 <= from <= s.len(),
    ensures
        from <= first_index_from(s, c, from) <= s.len(),
        first_index_from(s, c, from) < s.len() ==> s[first_index_from(s, c, from)] == c,
        forall|k: int| from <= k < first_index_from(s, c, from) ==> s[k] != c,
    decreases s.len() - from,
{
    if from < s.len() && s[from] != c {
        lemma_first_index_from(s, c, from + 1);
    }
}

/// Scanning past a stretch without `c` does not change the first occurrence.
proof fn lemma_first_index_skip(s: Seq<char>, c: char, from: int, upto: int)
    requires
        0 <= from <= upto <= s.len(),
        forall|k: int| from <= k < upto ==> s[k] != c,
    ensures
        first_index_from(s, c, from) == first_index_from(s, c, upto),
    decreases upto - from,
{
    if from < upto {
        lemma_first_index_skip(s, c, from + 1, upto);
    }
}

/// The name begins with a supported bus prefix, `mmc-` or `usb-`.
pub open spec fn has_bus_prefix(s: Seq<char>) -> bool {
    &&& s.len() >= 4
    &&& ((s[0] == 'm' && s[1] == 'm' && s[2] == 'c') || (s[0] == 'u' && s[1] == 's' && s[2]
        == 'b'))
    &&& s[3] == '-'
}

/// No `-` occurs at positions `a <= k < b` of `s`.
pub open spec fn dash_free(s: Seq<char>, a: int, b: int) -> bool {
    forall|k: int| a <= k < b ==> s[k] != '-'
}

/// The four characters starting at position `w` do not have the shape of a
/// partition suffix: position by position they differ from `p`, `a`, `r`, `t`.
pub open spec fn not_partition_window(s: Seq<char>, w: int) -> bool {
    s[w] != 'p' && s[w + 1] != 'a' && s[w + 2] != 'r' && s[w + 3] != 't'
}

/// Whether a stable-link name denotes a whole disk on a supported bus.
///
/// The rule mirrors the naming convention of stable device-identity links:
/// a bus prefix (`mmc-` or `usb-`), the vendor/model token running up to the
/// first underscore after the prefix, and a remainder that is dash-free up
/// to a final window of four or five characters whose leading four positions
/// must not spell a partition suffix.  Names of partitions (rather than
/// whole disks) end in such a suffix and are rejected.
pub open spec fn link_name_matches(s: Seq<char>) -> bool {
    let n = s.len() as int;
    let u = first_index_from(s, '_', 4);
    &&& has_bus_prefix(s)
    &&& u < n
    &&& {
        ||| (n - u - 1 >= 4 && dash_free(s, u + 1, n - 4) && not_partition_window(s, n - 4))
        ||| (n - u - 1 >= 5 && dash_free(s, u + 1, n - 5) && not_partition_window(s, n - 5))
    }
}

/// The vendor/model token of a link name: the characters between the bus
/// prefix and the first underscore after it.
pub open spec fn link_token(s: Seq<char>) -> Seq<char> {
    s.subrange(4, first_index_from(s, '_', 4))
}

/// Decides `link_name_matches` for a link name and extracts the
/// vendor/model token of a matching name.
pub fn match_device_name(name: &str) -> (r: Option<String>)
    ensures
        r is Some <==> link_name_matches(name@),
        r matches Some(token) ==> token@ == link_token(name@),
{
    let ghost s = name@;
    let n = name.unicode_len();

    // A match needs the 4-character prefix, an underscore, and 4 more
    // characters after the underscore.
    if n < 9 {
        proof {
            if s.len() >= 4 {
                lemma_first_index_from(s, '_', 4);
            }
        }
        return None;
    }
    let c0 = name.get_char(0);
    let c1 = name.get_char(1);
    let c2 = name.get_char(2);
    let c3 = name.get_char(3);
    if !(((c0 == 'm' && c1 == 'm' && c2 == 'c') || (c0 == 'u' && c1 == 's' && c2 == 'b')) && c3
        == '-') {
        return None;
    }

    // Find the first underscore after the prefix; `u == n` means none.
    let mut u: usize = n;
    let mut i: usize = 4;
    while i < n
        invariant
            4 <= i <= n,
            n == s.len(),
            s == name@,
            u != n ==> 4 <= u < i && s[u as int] == '_' && (forall|k: int|
                4 <= k < u ==> s[k] != '_'),
            u == n ==> forall|k: int| 4 <= k < i ==> s[k] != '_',
        decreases n - i,
    {
        if u == n && name.get_char(i) == '_' {
            u = i;
        }
        i = i + 1;
    }
    proof {
        if u < n {
            lemma_first_index_skip(s, '_', 4, u as int);
        } else {
            lemma_first_index_skip(s, '_', 4, n as int);
        }
        assert(u as int == first_index_from(s, '_', 4));
    }
    if u == n {
        return None;
    }

    // Find the first dash after the underscore; `fd == n` means none.
    let mut fd: usize = n;
    let mut j: usize = u + 1;
    while j < n
        invariant
            u + 1 <= j <= n,
            u < n,
            n == s.len(),
            s == name@,
            fd != n ==> u + 1 <= fd < j && s[fd as int] == '-' && (forall|k: int|
                u + 1 <= k < fd ==> s[k] != '-'),
            fd == n ==> forall|k: int| u + 1 <= k < j ==> s[k] != '-',
        decreases n - j,
    {
        if fd == n && name.get_char(j) == '-' {
            fd = j;
        }
        j = j + 1;
    }

    let m = n - u - 1;
    let tail4 = m >= 4 && fd >= n - 4 && name.get_char(n - 4) != 'p' && name.get_char(n - 3)
        != 'a' && name.get_char(n - 2) != 'r' && name.get_char(n - 1) != 't';
    let tail5 = m >= 5 && fd >= n - 5 && name.get_char(n - 5) != 'p' && name.get_char(n - 4)
        != 'a' && name.get_char(n - 3) != 'r' && name.get_char(n - 2) != 't';
    proof {
        if fd < n && fd < n - 4 {
            assert(!dash_free(s, u as int + 1, n as int - 4)) by {
                assert(u + 1 <= fd < n - 4 && s[fd as int] == '-');
            }
        }
        if fd < n && fd < n - 5 {
            assert(!dash_free(s, u as int + 1, n as int - 5)) by {
                assert(u + 1 <= fd < n - 5 && s[fd as int] == '-');
            }
        }
        assert(m >= 4 && fd >= n - 4 ==> dash_free(s, u as int + 1, n as int - 4));
        assert(m >= 5 && fd >= n - 5 ==> dash_free(s, u as int + 1, n as int - 5));
    }
    if tail4 || tail5 {
        let token = name.substring_char(4, u).to_owned();
        Some(token)
    } else {
        None
    }
}

/// The catalog that a sequence of link entries yields: one device per entry
/// whose link name matches, in order, with the capacity in mebibytes.
pub open spec fn catalog_of(entries: Seq<LinkEntry>) -> Seq<DeviceView>
    decreases entries.len(),
{
    if entries.len() == 0 {
        Seq::empty()
    } else {
        let e = entries[0];
        let rest = catalog_of(entries.drop_first());
        if link_name_matches(e.link_name@) {
            seq![
                DeviceView {
                    name: link_token(e.link_name@),
                    path: e.dev_path@,
                    mbytes: e.byte_len / BYTES_PER_MEBIBYTE,
                },
            ] + rest
        } else {
            rest
        }
    }
}

/// Turns one readable link entry into a catalog device, when its link name
/// denotes a whole disk on a supported bus.
pub fn device_from_entry(link_name: &str, dev_path: String, byte_len: u64) -> (r: Option<Device>)
    ensures
        r is Some <==> link_name_matches(link_name@),
        r matches Some(d) ==> d.name@ == link_token(link_name@) && d.path@ == dev_path@
            && d.mbytes == byte_len / BYTES_PER_MEBIBYTE,
{
    match match_device_name(link_name) {
        Some(token) => Some(
            Device { name: token, path: dev_path, mbytes: byte_len / BYTES_PER_MEBIBYTE },
        ),
        None => None,
    }
}

/// Builds the catalog of an enumeration pass: the devices of exactly the
/// matching entries, in order.
pub fn catalog_from_entries(entries: &Vec<LinkEntry>) -> (r: Vec<Device>)
    ensures
        r@.map_values(|d: Device| d@) == catalog_of(entries@),
{
    let mut out: Vec<Device> = Vec::new();
    let mut i: usize = 0;
    proof {
        assert(entries@.skip(0) =~= entries@);
        assert(out@.map_values(|d: Device| d@) =~= Seq::<DeviceView>::empty());
    }
    while i < entries.len()
        invariant
            i <= entries@.len(),
            catalog_of(entries@) =~= out@.map_values(|d: Device| d@) + catalog_of(
                entries@.skip(i as int),
            ),
        decreases entries@.len() - i,
    {
        let e = &entries[i];
        proof {
            assert(entries@.skip(i as int)[0] == entries@[i as int]);
            assert(entries@.skip(i as int).drop_first() =~= entries@.skip(i as int + 1));
        }
        let ghost prev = out@;
        match device_from_entry(e.link_name.as_str(), e.dev_path.clone(), e.byte_len) {
            Some(d) => {
                out.push(d);
                proof {
                    assert(out@.map_values(|d: Device| d@) =~= prev.map_values(|d: Device| d@)
                        + seq![out@.last()@]);
                }
            },
            None => {},
        }
        i = i + 1;
    }
    proof {
        assert(entries@.skip(entries@.len() as int) =~= Seq::<LinkEntry>::empty());
    }
    out
}

/// `devices[i]` exists and its name is exactly `input`.
pub open spec fn name_matches_at(devices: Seq<Device>, input: Seq<char>, i: int) -> bool {
    0 <= i < devices.len() && devices[i].name@ == input
}

/// `devices[i]` exists and its path is exactly `p`.
pub open spec fn path_matches_at(devices: Seq<Device>, p: Seq<char>, i: int) -> bool {
    0 <= i < devices.len() && devices[i].path@ == p
}

/// Index of the first catalog entry named `input`, or `devices.len()`.
pub open spec fn first_name_match_from(devices: Seq<Device>, input: Seq<char>, from: int) -> int
    decreases devices.len() - from,
{
    if from >= devices.len() {
        devices.len() as int
    } else if devices[from].name@ == input {
        from
    } else {
        first_name_match_from(devices, input, from + 1)
    }
}

proof fn lemma_first_name_match_skip(devices: Seq<Device>, input: Seq<char>, from: int, upto: int)
    requires
        0 <= from <= upto <= devices.len(),
        forall|k: int| from <= k < upto ==> devices[k].name@ != input,
    ensures
        first_name_match_from(devices, input, from) == first_name_match_from(
            devices,
            input,
            upto,
        ),
    decreases upto - from,
{
    if from < upto {
        lemma_first_name_match_skip(devices, input, from + 1, upto);
    }
}

/// Index of the first catalog entry whose path is `p`, or `devices.len()`.
pub open spec fn first_path_match_from(devices: Seq<Device>, p: Seq<char>, from: int) -> int
    decreases devices.len() - from,
{
    if from >= devices.len() {
        devices.len() as int
    } else if devices[from].path@ == p {
        from
    } else {
        first_path_match_from(devices, p, from + 1)
    }
}

proof fn lemma_first_path_match_skip(devices: Seq<Device>, p: Seq<char>, from: int, upto: int)
    requires
        0 <= from <= upto <= devices.len(),
        forall|k: int| from <= k < upto ==> devices[k].path@ != p,
    ensures
        first_path_match_from(devices, p, from) == first_path_match_from(devices, p, upto),
    decreases upto - from,
{
    if from < upto {
        lemma_first_path_match_skip(devices, p, from + 1, upto);
    }
}

/// The verbatim identifier recognized as an escape hatch for testing
/// without real hardware.
pub open spec fn sentinel_path() -> Seq<char> {
    "/tmp/plop.img"@
}

/// Relies on `std::path::Path::canonicalize`: it returns the absolute,
/// symlink-resolved form of the path and fails when the path does not
/// exist.  The result depends on the state of the filesystem, so nothing is
/// assumed about the returned string.
#[verifier::external_body]
fn canonicalize_str(input: &String) -> (r: Option<String>) {
    match std::path::Path::new(input).canonicalize() {
        Ok(p) => Some(p.to_string_lossy().into_owned()),
        Err(_) => None,
    }
}

/// The catalog-path step of resolution: compares an already canonical path
/// against every catalog entry's path and returns the first equal one.
pub fn resolve_canonical(devices: &Vec<Device>, canonical: &String) -> (r: Option<String>)
    ensures
        r is Some <==> exists|i: int| path_matches_at(devices@, canonical@, i),
        r matches Some(p) ==> p@ == canonical@,
{
    let mut i: usize = 0;
    while i < devices.len()
        invariant
            i <= devices@.len(),
            forall|k: int| 0 <= k < i ==> devices@[k].path@ != canonical@,
        decreases devices@.len() - i,
    {
        if *canonical == devices[i].path {
            assert(path_matches_at(devices@, canonical@, i as int));
            return Some(canonical.clone());
        }
        i = i + 1;
    }
    None
}

/// Resolves a user-typed identifier to a canonical device path.
///
/// Precedence: the sentinel test-image path is returned verbatim; an exact
/// match of a catalog entry's name returns that entry's path; otherwise the
/// input is canonicalized as a filesystem path and compared against the
/// catalog entries' paths.  A name or path that matches nothing resolves to
/// `Ok(None)` (absence, not an error); an input that is no catalog name and
/// cannot be canonicalized is the hard failure `Err(ResolveError::Canonicalize)`.
pub fn device_path(devices: &Vec<Device>, input: &String) -> (r: Result<
    Option<String>,
    ResolveError,
>)
    ensures
        input@ == sentinel_path() ==> (r matches Ok(Some(p)) && p@ == input@),
        input@ != sentinel_path() && (exists|i: int| name_matches_at(devices@, input@, i)) ==> (
        r matches Ok(Some(p)) && p@ == devices@[first_name_match_from(devices@, input@, 0)].path@),
        input@ != sentinel_path() && !(exists|i: int| name_matches_at(devices@, input@, i))
            ==> match r {
            Ok(Some(p)) => exists|i: int| path_matches_at(devices@, p@, i),
            Ok(None) => true,
            Err(e) => e == ResolveError::Canonicalize,
        },
{
    let sentinel: String = "/tmp/plop.img".to_owned();
    proof {
        assert(sentinel@ == sentinel_path());
    }
    if *input == sentinel {
        return Ok(Some(input.clone()));
    }
    let mut i: usize = 0;
    while i < devices.len()
        invariant
            i <= devices@.len(),
            input@ != sentinel_path(),
            forall|k: int| 0 <= k < i ==> devices@[k].name@ != input@,
        decreases devices@.len() - i,
    {
        if *input == devices[i].name {
            proof {
                lemma_first_name_match_skip(devices@, input@, 0, i as int);
                assert(name_matches_at(devices@, input@, i as int));
                assert(first_name_match_from(devices@, input@, i as int) == i as int);
            }
            return Ok(Some(devices[i].path.clone()));
        }
        i = i + 1;
    }
    match canonicalize_str(input) {
        Some(canonical) => Ok(resolve_canonical(devices, &canonical)),
        None => Err(ResolveError::Canonicalize),
    }
}

/// Capacity in bytes of the catalog entry with the given canonical path, as
/// observed at enumeration time.
pub fn get_device_size(devices: &Vec<Device>, path: &String) -> (r: Result<u64, String>)
    ensures
        !(exists|k: int| path_matches_at(devices@, path@, k)) ==> (r matches Err(m) && m@
            == "unknown device"@),
        (exists|k: int| path_matches_at(devices@, path@, k)) ==> ({
            let d = devices@[first_path_match_from(devices@, path@, 0)];
            if d.mbytes <= u64::MAX / BYTES_PER_MEBIBYTE {
                r matches Ok(sz) && sz == d.mbytes * BYTES_PER_MEBIBYTE
            } else {
                r matches Err(m) && m@ == "device capacity overflows a byte count"@
            }
        }),
{
    let mut i: usize = 0;
    while i < devices.len()
        invariant
            i <= devices@.len(),
            forall|k: int| 0 <= k < i ==> devices@[k].path@ != path@,
        decreases devices@.len() - i,
    {
        if *path == devices[i].path {
            proof {
                lemma_first_path_match_skip(devices@, path@, 0, i as int);
                assert(path_matches_at(devices@, path@, i as int));
                assert(first_path_match_from(devices@, path@, i as int) == i as int);
            }
            if devices[i].mbytes <= u64::MAX / BYTES_PER_MEBIBYTE {
                return Ok(devices[i].mbytes * BYTES_PER_MEBIBYTE);
            } else {
                return Err("device capacity overflows a byte count".to_owned());
            }
        }
        i = i + 1;
    }
    Err("unknown device".to_owned())
}

} // verus!
