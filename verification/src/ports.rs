//! Port name matching: Windows may append an index to a duplicate device name
//! (`"2- Beatstep Pro"`), so a configured name is matched exactly first, then
//! with a leading `N- ` prefix stripped.
use vstd::prelude::*;
use vstd::string::StrSliceExecFns;

verus! {

pub open spec fn is_ascii_digit(c: char) -> bool {
    '0' <= c && c <= '9'
}

/// `"- "` starts at position `i` of `s`.
pub open spec fn separator_at(s: Seq<char>, i: int) -> bool {
    0 <= i && i + 1 < s.len() && s[i] == '-' && s[i + 1] == ' '
}

/// `i` is the first position of `"- "` in `s`.
pub open spec fn first_separator_at(s: Seq<char>, i: int) -> bool {
    separator_at(s, i) && forall|j: int| 0 <= j < i ==> !separator_at(s, j)
}

/// `s` with a leading index prefix removed: if the part before the first `"- "`
/// is a non-empty run of ASCII digits, the part after it; otherwise `s` itself.
pub open spec fn stripped(s: Seq<char>) -> Seq<char> {
    if exists|i: int| first_separator_at(s, i) {
        let i = choose|i: int| first_separator_at(s, i);
        if i > 0 && forall|j: int| 0 <= j < i ==> is_ascii_digit(#[trigger] s[j]) {
            s.subrange(i + 2, s.len() as int)
        } else {
            s
        }
    } else {
        s
    }
}

proof fn lemma_first_separator_unique(s: Seq<char>, i: int, j: int)
    requires
        first_separator_at(s, i),
        first_separator_at(s, j),
    ensures
        i == j,
{
    if i < j {
        assert(!separator_at(s, i));
    } else if j < i {
        assert(!separator_at(s, j));
    }
}

/// Whether two strings hold the same characters.
pub fn same_chars(a: &str, b: &str) -> (r: bool)
    ensures
        r == (a@ == b@),
{
    let n = a.unicode_len();
    if n != b.unicode_len() {
        return false;
    }
    let mut i: usize = 0;
    while i < n
        invariant
            n == a@.len(),
            n == b@.len(),
            i <= n,
            forall|j: int| 0 <= j < i ==> a@[j] == b@[j],
        decreases n - i,
    {
        if a.get_char(i) != b.get_char(i) {
            return false;
        }
        i = i + 1;
    }
    assert(a@ =~= b@);
    true
}

/// Strips a Windows-appended duplicate-device-name prefix (`"2- "`, `"3- "`, …)
/// if present, otherwise returns `name` unchanged.
pub fn strip_index_prefix(name: &str) -> (r: &str)
    ensures
        r@ == stripped(name@),
{
    let n = name.unicode_len();
    let last: usize = if n == 0 { 0 } else { n - 1 };
    let mut i: usize = 0;
    while i < last
        invariant
            n == name@.len(),
            last == if n == 0 { 0 } else { n - 1 },
            i <= last,
            forall|j: int| 0 <= j < i ==> !separator_at(name@, j),
        decreases n - i,
    {
        if name.get_char(i) == '-' && name.get_char(i + 1) == ' ' {
            assert(first_separator_at(name@, i as int));
            proof {
                let c = choose|c: int| first_separator_at(name@, c);
                lemma_first_separator_unique(name@, c, i as int);
            }
            if i == 0 {
                return name;
            }
            let mut d: usize = 0;
            while d < i
                invariant
                    i < n,
                    n == name@.len(),
                    d <= i,
                    first_separator_at(name@, i as int),
                    (choose|c: int| first_separator_at(name@, c)) == i,
                    forall|j: int| 0 <= j < d ==> is_ascii_digit(#[trigger] name@[j]),
                decreases i - d,
            {
                let c = name.get_char(d);
                if !('0' <= c && c <= '9') {
                    assert(!is_ascii_digit(name@[d as int]));
                    return name;
                }
                d = d + 1;
            }
            return name.substring_char(i + 2, n);
        }
        i = i + 1;
    }
    assert forall|j: int| !first_separator_at(name@, j) by {
        if first_separator_at(name@, j) {
            assert(separator_at(name@, j));
        }
    }
    name
}

/// The names in `available`, as character sequences.
pub open spec fn names(available: Seq<String>) -> Seq<Seq<char>> {
    available.map_values(|s: String| s@)
}

/// `i` is the first index in `cands` whose stripped name is `name`.
pub open spec fn first_stripped_match(name: Seq<char>, cands: Seq<Seq<char>>, i: int) -> bool {
    0 <= i < cands.len() && stripped(cands[i]) == name && forall|j: int|
        0 <= j < i ==> stripped(#[trigger] cands[j]) != name
}

/// Which of the live port names `cands` corresponds to the configured `name`:
/// `name` itself if it is present; else the first name whose index prefix, once
/// stripped, leaves `name`; else none.
pub open spec fn resolved(name: Seq<char>, cands: Seq<Seq<char>>) -> Option<Seq<char>> {
    if cands.contains(name) {
        Some(name)
    } else if exists|i: int| first_stripped_match(name, cands, i) {
        Some(cands[choose|i: int| first_stripped_match(name, cands, i)])
    } else {
        None
    }
}

/// Finds which of `available` currently corresponds to the configured or
/// selected `name`: an exact match first, then one that only differs by a
/// `N- ` index prefix.
pub fn resolve_port_name<'a>(name: &str, available: &'a [String]) -> (r: Option<&'a str>)
    ensures
        match (r, resolved(name@, names(available@))) {
            (Some(s), Some(v)) => s@ == v,
            (None, None) => true,
            _ => false,
        },
{
    let ghost cands = names(available@);
    let mut i: usize = 0;
    while i < available.len()
        invariant
            i <= available@.len(),
            cands == names(available@),
            forall|j: int| 0 <= j < i ==> cands[j] != name@,
        decreases available@.len() - i,
    {
        let candidate = available[i].as_str();
        if same_chars(candidate, name) {
            assert(cands[i as int] == name@);
            assert(cands.contains(name@));
            return Some(candidate);
        }
        i = i + 1;
    }
    assert(!cands.contains(name@));
    let mut i: usize = 0;
    while i < available.len()
        invariant
            i <= available@.len(),
            cands == names(available@),
            !cands.contains(name@),
            forall|j: int| 0 <= j < i ==> stripped(#[trigger] cands[j]) != name@,
        decreases available@.len() - i,
    {
        let candidate = available[i].as_str();
        if same_chars(strip_index_prefix(candidate), name) {
            assert(first_stripped_match(name@, cands, i as int));
            proof {
                let c = choose|c: int| first_stripped_match(name@, cands, c);
                if c < i {
                    assert(stripped(cands[c]) != name@);
                } else if c > i {
                    assert(stripped(cands[i as int]) != name@);
                }
            }
            return Some(candidate);
        }
        i = i + 1;
    }
    assert forall|j: int| !first_stripped_match(name@, cands, j) by {
        if first_stripped_match(name@, cands, j) {
            assert(stripped(cands[j]) == name@);
        }
    }
    None
}


/// `names` without the entries equal to `exclude`, in order.
pub open spec fn without(names: Seq<Seq<char>>, exclude: Seq<char>) -> Seq<Seq<char>>
    decreases names.len(),
{
    if names.len() == 0 {
        Seq::empty()
    } else {
        let rest = without(names.drop_last(), exclude);
        if names.last() == exclude {
            rest
        } else {
            rest.push(names.last())
        }
    }
}

/// Loop protection: the port list `ports` with the app's own virtual port
/// `exclude` taken out (its input never appears as an output and vice versa).
pub fn exclude_port(ports: Vec<String>, exclude: &str) -> (r: Vec<String>)
    ensures
        names(r@) == without(names(ports@), exclude@),
{
    let mut out: Vec<String> = Vec::new();
    let mut i: usize = 0;
    while i < ports.len()
        invariant
            i <= ports@.len(),
            names(out@) == without(names(ports@.subrange(0, i as int)), exclude@),
        decreases ports@.len() - i,
    {
        let ghost before = ports@.subrange(0, i as int);
        assert(ports@.subrange(0, i as int + 1).drop_last() == before);
        assert(names(ports@.subrange(0, i as int + 1)).drop_last() =~= names(before));
        if !same_chars(ports[i].as_str(), exclude) {
            let ghost old_out = out@;
            out.push(ports[i].clone());
            assert(names(out@) =~= names(old_out).push(ports@[i as int]@));
        }
        i = i + 1;
    }
    assert(ports@.subrange(0, ports@.len() as int) == ports@);
    out
}

/// Whether a port named `name` is among `ports`.
pub fn port_listed(name: &str, ports: &[String]) -> (r: bool)
    ensures
        r == names(ports@).contains(name@),
{
    let mut i: usize = 0;
    while i < ports.len()
        invariant
            i <= ports@.len(),
            forall|j: int| 0 <= j < i ==> names(ports@)[j] != name@,
        decreases ports@.len() - i,
    {
        if same_chars(ports[i].as_str(), name) {
            assert(names(ports@)[i as int] == name@);
            return true;
        }
        i = i + 1;
    }
    false
}

/// Hot-plug: whether an output must be reconnected — it is enabled, it is a
/// hardware port (not the app's own virtual output), its port is present
/// again, and the engine does not report it connected.
pub fn should_reconnect(
    name: &str,
    enabled: bool,
    virtual_out_name: &str,
    live_ports: &[String],
    connected: &[String],
) -> (r: bool)
    ensures
        r == (enabled && name@ != virtual_out_name@ && names(live_ports@).contains(name@) && !names(
            connected@,
        ).contains(name@)),
{
    enabled && !same_chars(name, virtual_out_name) && port_listed(name, live_ports) && !port_listed(
        name,
        connected,
    )
}

/// Hot-plug for an input (the clock input or the measure input): whether it
/// must be reconnected — a port is selected for it (`None`: none, or not a
/// hardware port), it is not connected, and its port is present again.
pub fn should_reconnect_input(selected: Option<&str>, connected: bool, live_ports: &[String]) -> (r: bool)
    ensures
        r == match selected {
            Some(name) => !connected && names(live_ports@).contains(name@),
            None => false,
        },
{
    match selected {
        Some(name) => !connected && port_listed(name, live_ports),
        None => false,
    }
}

/// Whether `name` can be handed to the virtual MIDI driver as a port name:
/// it must not contain a NUL character.
pub fn is_valid_port_name(name: &str) -> (r: bool)
    ensures
        r == !name@.contains('\0'),
{
    let n = name.unicode_len();
    let mut i: usize = 0;
    while i < n
        invariant
            n == name@.len(),
            i <= n,
            forall|j: int| 0 <= j < i ==> name@[j] != '\0',
        decreases n - i,
    {
        if name.get_char(i) == '\0' {
            assert(name@[i as int] == '\0');
            return false;
        }
        i = i + 1;
    }
    true
}

} // verus!
