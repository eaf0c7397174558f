//! The PipeWire backend's rules: which nodes are devices, how strips are linked to
//! buses, how listings of ports and links are read, and how application streams
//! are named.
use vstd::prelude::*;
use crate::backend::{BackendCommand, BackendEvent};
use crate::model::{AppRouteState, BusView, DeviceOption, EndpointKind, SessionState, SessionView, StripState, StripView};
use crate::text::{
    chars_first_ws, chars_lines, first_ws_index, lines, sort_strings, sorted_seq, has_prefix, chars_start_with,
    alnum_runs, ascii_lower, ascii_upper, chars_alnum_runs, chars_contain, chars_end_with, chars_index_of,
    chars_last_index_of, chars_of, chars_range, decimal, decimal_string, chars_words, concat, has_infix, has_suffix, index_of,
    is_white_space, is_white_space_char, join_chars, joined, last_index_of, parse_u32, parse_usize,
    parsed_u32, parsed_usize, str_eq, string_from_chars, trim_chars, trim_str, trimmed, words,
    ascending_by, chars_less, insert_by, lemma_insert_by_at, lemma_sorted_by_ascending, lemma_sorted_by_multiset, to_lowercase, unicode_lowercase, seq_less, sorted_by, str_contains, str_ends_with, str_starts_with,
};
use crate::json::{bool_of, json_get, json_prop, json_prop_path, path_view, prop, prop_path, u64_of, JsonValue};

verus! {

/// A link from a source port to a destination port.
#[derive(Debug, PartialEq, Eq)]
pub struct RouteLink {
    pub source_port: String,
    pub dest_port: String,
}

impl Clone for RouteLink {
    fn clone(&self) -> (r: Self)
        ensures
            r == *self,
    {
        RouteLink { source_port: self.source_port.clone(), dest_port: self.dest_port.clone() }
    }
}

/// A link by the names of its ports.
pub open spec fn link_view(l: RouteLink) -> (Seq<char>, Seq<char>) {
    (l.source_port@, l.dest_port@)
}

/// The links of a list, by the names of their ports.
pub open spec fn links_view(ls: Seq<RouteLink>) -> Seq<(Seq<char>, Seq<char>)> {
    ls.map_values(|l: RouteLink| link_view(l))
}

/// The names of a list of ports.
pub open spec fn names(ports: Seq<String>) -> Seq<Seq<char>> {
    ports.map_values(|p: String| p@)
}

/// Index of the first port whose name ends with `suffix`, or -1.
pub open spec fn first_with_suffix(ports: Seq<Seq<char>>, suffix: Seq<char>) -> int
    decreases ports.len(),
{
    if ports.len() == 0 {
        -1
    } else {
        let f = first_with_suffix(ports.drop_last(), suffix);
        if f >= 0 {
            f
        } else if has_suffix(ports.last(), suffix) {
            ports.len() - 1
        } else {
            -1
        }
    }
}

/// The left and right port to use: for the first preferred pair of suffixes that
/// both name some port, the first port with each; otherwise the only port twice,
/// or the first two ports; nothing when there are no ports.
pub open spec fn picked_ports(ports: Seq<Seq<char>>, pairs: Seq<(Seq<char>, Seq<char>)>) -> Option<(int, int)>
    decreases pairs.len(),
{
    if pairs.len() == 0 {
        if ports.len() == 1 {
            Some((0, 0))
        } else if ports.len() >= 2 {
            Some((0, 1))
        } else {
            None
        }
    } else {
        let l = first_with_suffix(ports, pairs[0].0);
        let r = first_with_suffix(ports, pairs[0].1);
        if l >= 0 && r >= 0 {
            Some((l, r))
        } else {
            picked_ports(ports, pairs.drop_first())
        }
    }
}

proof fn lemma_first_with_suffix(ports: Seq<Seq<char>>, suffix: Seq<char>)
    ensures
        -1 <= first_with_suffix(ports, suffix) < ports.len(),
    decreases ports.len(),
{
    if ports.len() > 0 {
        lemma_first_with_suffix(ports.drop_last(), suffix);
    }
}

proof fn lemma_picked_ports(ports: Seq<Seq<char>>, pairs: Seq<(Seq<char>, Seq<char>)>)
    ensures
        picked_ports(ports, pairs).is_some() == (ports.len() > 0),
        picked_ports(ports, pairs) matches Some((l, r)) ==> 0 <= l < ports.len() && 0 <= r < ports.len(),
    decreases pairs.len(),
{
    if pairs.len() > 0 {
        lemma_first_with_suffix(ports, pairs[0].0);
        lemma_first_with_suffix(ports, pairs[0].1);
        lemma_picked_ports(ports, pairs.drop_first());
    }
}

proof fn lemma_first_with_suffix_prefix(ports: Seq<Seq<char>>, m: int, suffix: Seq<char>)
    requires
        0 <= m <= ports.len(),
        first_with_suffix(ports.take(m), suffix) >= 0,
    ensures
        first_with_suffix(ports, suffix) == first_with_suffix(ports.take(m), suffix),
    decreases ports.len(),
{
    if m == ports.len() {
        assert(ports.take(m) =~= ports);
    } else {
        assert(ports.drop_last().take(m) =~= ports.take(m));
        lemma_first_with_suffix_prefix(ports.drop_last(), m, suffix);
    }
}

/// Index of the first port whose name ends with `suffix`.
fn find_port_with_suffix(ports: &[String], suffix: &str) -> (r: Option<usize>)
    ensures
        match r {
            Some(k) => first_with_suffix(names(ports@), suffix@) == k as int && k < ports@.len(),
            None => first_with_suffix(names(ports@), suffix@) == -1,
        },
{
    let ghost ns = names(ports@);
    let sfx = chars_of(suffix);
    let mut j: usize = 0;
    while j < ports.len()
        invariant
            j <= ports@.len(),
            ns == names(ports@),
            sfx@ == suffix@,
            first_with_suffix(ns.take(j as int), suffix@) == -1,
        decreases ports@.len() - j,
    {
        assert(ns.take(j + 1).drop_last() =~= ns.take(j as int));
        let name = chars_of(ports[j].as_str());
        if chars_end_with(name.as_slice(), sfx.as_slice()) {
            proof {
                lemma_first_with_suffix_prefix(ns, j + 1, suffix@);
            }
            return Some(j);
        }
        j = j + 1;
    }
    assert(ns.take(j as int) =~= ns);
    None
}

/// The preferred pairs of suffixes, by their characters.
pub open spec fn pairs_view(pairs: Seq<(&str, &str)>) -> Seq<(Seq<char>, Seq<char>)> {
    pairs.map_values(|p: (&str, &str)| (p.0@, p.1@))
}

/// The left and right port to use (see [`picked_ports`]).
pub fn pick_stereo_ports(ports: &[String], preferred_pairs: &[(&str, &str)]) -> (r: Option<(String, String)>)
    ensures
        match picked_ports(names(ports@), pairs_view(preferred_pairs@)) {
            Some((l, r0)) => r matches Some((a, b)) && a == ports@[l] && b == ports@[r0],
            None => r.is_none(),
        },
{
    proof {
        lemma_picked_ports(names(ports@), pairs_view(preferred_pairs@));
    }
    let ghost ps = pairs_view(preferred_pairs@);
    let mut i: usize = 0;
    assert(ps.skip(0) =~= ps);
    while i < preferred_pairs.len()
        invariant
            i <= preferred_pairs@.len(),
            ps == pairs_view(preferred_pairs@),
            picked_ports(names(ports@), ps) == picked_ports(names(ports@), ps.skip(i as int)),
        decreases preferred_pairs@.len() - i,
    {
        let (left_suffix, right_suffix) = preferred_pairs[i];
        assert(ps.skip(i as int)[0] == (left_suffix@, right_suffix@));
        assert(ps.skip(i as int).drop_first() =~= ps.skip(i + 1));
        let left = find_port_with_suffix(ports, left_suffix);
        let right = find_port_with_suffix(ports, right_suffix);
        if let (Some(l), Some(r)) = (left, right) {
            return Some((ports[l].clone(), ports[r].clone()));
        }
        i = i + 1;
    }
    assert(ps.skip(i as int).len() == 0);
    if ports.len() == 1 {
        Some((ports[0].clone(), ports[0].clone()))
    } else if ports.len() >= 2 {
        Some((ports[0].clone(), ports[1].clone()))
    } else {
        None
    }
}

/// A link from `source` to the port named `dest`.
fn make_link(source: String, dest: &str) -> (l: RouteLink)
    ensures
        l.source_port == source,
        l.dest_port@ == dest@,
{
    RouteLink { source_port: source, dest_port: dest.to_owned() }
}

/// Every port linked to `dest`, in order.
pub fn links_for_all_ports(ports: &[String], dest: &str) -> (r: Vec<RouteLink>)
    ensures
        links_view(r@) == names(ports@).map_values(|p: Seq<char>| (p, dest@)),
{
    let mut r: Vec<RouteLink> = Vec::new();
    let mut i: usize = 0;
    while i < ports.len()
        invariant
            i <= ports@.len(),
            links_view(r@) == names(ports@).take(i as int).map_values(|p: Seq<char>| (p, dest@)),
        decreases ports@.len() - i,
    {
        let ghost before = r@;
        let l = make_link(ports[i].clone(), dest);
        assert(link_view(l) == (ports@[i as int]@, dest@));
        r.push(l);
        assert(links_view(r@) =~= links_view(before).push(link_view(l)));
        assert(names(ports@)[i as int] == ports@[i as int]@);
        assert(names(ports@).take(i + 1) =~= names(ports@).take(i as int).push(ports@[i as int]@));
        i = i + 1;
        assert(links_view(r@) =~= names(ports@).take(i as int).map_values(|p: Seq<char>| (p, dest@)));
    }
    assert(names(ports@).take(i as int) =~= names(ports@));
    r
}

/// The capture pair of suffixes that hardware inputs prefer.
pub open spec fn capture_pairs() -> Seq<(Seq<char>, Seq<char>)> {
    seq![("capture_FL"@, "capture_FR"@)]
}

/// The links from a hardware input's capture ports to a stereo destination: its
/// left and right capture port (see [`picked_ports`]) to the left and right
/// destination; nothing when it has no ports.
pub open spec fn hardware_input_links(ports: Seq<Seq<char>>, dest_left: Seq<char>, dest_right: Seq<char>) -> Option<Seq<(Seq<char>, Seq<char>)>> {
    match picked_ports(ports, capture_pairs()) {
        Some((l, r)) => Some(seq![(ports[l], dest_left), (ports[r], dest_right)]),
        None => None,
    }
}

/// The links from a hardware input in mono: its left capture port to both sides.
pub open spec fn hardware_input_mono_links(ports: Seq<Seq<char>>, dest_left: Seq<char>, dest_right: Seq<char>) -> Option<Seq<(Seq<char>, Seq<char>)>> {
    match picked_ports(ports, capture_pairs()) {
        Some((l, r)) => Some(seq![(ports[l], dest_left), (ports[l], dest_right)]),
        None => None,
    }
}

/// What follows the last `_` of a port name (the whole name where it has none).
pub open spec fn after_last_underscore(name: Seq<char>) -> Seq<char> {
    name.skip(last_index_of(name, '_') + 1)
}

/// The channel number of a port named `..._AUX<n>`: the part after its last `_`
/// must be `AUX` followed by a number that fits in `usize`.
pub open spec fn aux_channel(name: Seq<char>) -> Option<usize> {
    let suffix = after_last_underscore(name);
    if suffix.len() >= 3 && suffix[0] == 'A' && suffix[1] == 'U' && suffix[2] == 'X' {
        parsed_usize(suffix.skip(3))
    } else {
        None
    }
}

/// The channel number of a port named `..._AUX<n>`, if it is one.
fn aux_index(port: &String) -> (r: Option<usize>)
    ensures
        r == aux_channel(port@),
        r.is_some() ==> port@.len() > 0,
{
    let name = chars_of(port.as_str());
    let n = name.len();
    let start = match chars_last_index_of(name.as_slice(), '_') {
        Some(k) => k + 1,
        None => 0,
    };
    let suffix = chars_range(name.as_slice(), if start <= name.len() { start } else { name.len() }, name.len());
    assert(suffix@ =~= after_last_underscore(port@));
    if suffix.len() < 3 || suffix[0] != 'A' || suffix[1] != 'U' || suffix[2] != 'X' {
        return None;
    }
    let digits = chars_range(suffix.as_slice(), 3, suffix.len());
    assert(digits@ =~= suffix@.skip(3));
    parse_usize(digits.as_slice())
}

/// The links from a hardware input's capture ports to a stereo destination (see
/// [`hardware_input_links`]).
pub fn build_hardware_input_links(ports: &[String], dest_left: &str, dest_right: &str) -> (r: Option<Vec<RouteLink>>)
    ensures
        match hardware_input_links(names(ports@), dest_left@, dest_right@) {
            Some(ls) => r matches Some(v) && links_view(v@) == ls,
            None => r.is_none(),
        },
{
    let capture: [(&str, &str); 1] = [("capture_FL", "capture_FR")];
    proof {
        reveal_strlit("capture_FL");
        reveal_strlit("capture_FR");
        assert(pairs_view(capture@) =~= capture_pairs());
        lemma_picked_ports(names(ports@), capture_pairs());
    }
    if let Some((left, right)) = pick_stereo_ports(ports, capture.as_slice()) {
        let mut links: Vec<RouteLink> = Vec::new();
        links.push(make_link(left, dest_left));
        links.push(make_link(right, dest_right));
        assert(links_view(links@) =~= hardware_input_links(names(ports@), dest_left@, dest_right@).unwrap());
        return Some(links);
    }
    // With no preferred pair and no port at all, only numbered channels remain.
    let mut aux_indices: Vec<usize> = Vec::new();
    let mut aux_ports: Vec<String> = Vec::new();
    let mut i: usize = 0;
    while i < ports.len()
        invariant
            i <= ports@.len(),
            aux_ports@.len() <= i,
            aux_indices@.len() == aux_ports@.len(),
        decreases ports@.len() - i,
    {
        if let Some(index) = aux_index(&ports[i]) {
            aux_indices.push(index);
            aux_ports.push(ports[i].clone());
        }
        i = i + 1;
    }
    if aux_ports.len() > 0 {
        let mut links: Vec<RouteLink> = Vec::new();
        let mut even: usize = 0;
        let mut odd: usize = 0;
        let mut k: usize = 0;
        while k < aux_ports.len()
            invariant
                k <= aux_ports@.len(),
                aux_indices@.len() == aux_ports@.len(),
            decreases aux_ports@.len() - k,
        {
            let index = aux_indices[k];
            let port = aux_ports[k].clone();
            if index % 2 == 0 {
                links.push(make_link(port, dest_left));
                even = if even < usize::MAX { even + 1 } else { even };
            } else {
                links.push(make_link(port, dest_right));
                odd = if odd < usize::MAX { odd + 1 } else { odd };
            }
            k = k + 1;
        }
        if even == 0 {
            links.append(&mut links_for_all_ports(ports, dest_left));
        }
        if odd == 0 {
            links.append(&mut links_for_all_ports(ports, dest_right));
        }
        return Some(links);
    }
    if ports.len() == 0 {
        None
    } else if ports.len() == 1 {
        let mut links: Vec<RouteLink> = Vec::new();
        links.push(make_link(ports[0].clone(), dest_left));
        links.push(make_link(ports[0].clone(), dest_right));
        Some(links)
    } else {
        let mut links: Vec<RouteLink> = Vec::new();
        links.push(make_link(ports[0].clone(), dest_left));
        links.push(make_link(ports[1].clone(), dest_right));
        Some(links)
    }
}

/// The links from a hardware input in mono (see [`hardware_input_mono_links`]).
pub fn build_hardware_input_mono_links(ports: &[String], dest_left: &str, dest_right: &str) -> (r: Option<Vec<RouteLink>>)
    ensures
        match hardware_input_mono_links(names(ports@), dest_left@, dest_right@) {
            Some(ls) => r matches Some(v) && links_view(v@) == ls,
            None => r.is_none(),
        },
{
    let capture: [(&str, &str); 1] = [("capture_FL", "capture_FR")];
    proof {
        reveal_strlit("capture_FL");
        reveal_strlit("capture_FR");
        assert(pairs_view(capture@) =~= capture_pairs());
        lemma_picked_ports(names(ports@), capture_pairs());
    }
    if let Some((left, _right)) = pick_stereo_ports(ports, capture.as_slice()) {
        let mut links: Vec<RouteLink> = Vec::new();
        links.push(make_link(left.clone(), dest_left));
        links.push(make_link(left, dest_right));
        assert(links_view(links@) =~= hardware_input_mono_links(names(ports@), dest_left@, dest_right@).unwrap());
        return Some(links);
    }
    // No port at all: look for a numbered channel, else the first port.
    let aux0 = chars_of("AUX0");
    let aux1 = chars_of("AUX1");
    let mut found: Option<usize> = None;
    let mut i: usize = 0;
    while i < ports.len() && found.is_none()
        invariant
            i <= ports@.len(),
            found matches Some(k) ==> k < ports@.len(),
        decreases ports@.len() - i,
    {
        let name = chars_of(ports[i].as_str());
        if chars_end_with(name.as_slice(), aux0.as_slice()) || chars_end_with(name.as_slice(), aux1.as_slice()) {
            found = Some(i);
        }
        i = i + 1;
    }
    let source = match found {
        Some(k) => ports[k].clone(),
        None => {
            if ports.len() == 0 {
                return None;
            }
            ports[0].clone()
        },
    };
    let mut links: Vec<RouteLink> = Vec::new();
    links.push(make_link(source.clone(), dest_left));
    links.push(make_link(source, dest_right));
    Some(links)
}

/// Which way a listed link goes from the port it is listed under.
#[derive(Clone, Copy, PartialEq, Eq, Structural, Debug)]
pub enum LinkDirection {
    Output,
    Input,
}

/// What a port header line of `pw-link -I -l` holds: the port's id and name. A
/// line holding an arrow is no header; otherwise the trimmed line is the id, one
/// white-space character, and the name (trimmed, not empty).
pub open spec fn port_header(line: Seq<char>) -> Option<(u32, Seq<char>)> {
    if has_infix(line, "|->"@) || has_infix(line, "|<-"@) {
        None
    } else {
        let t = trimmed(line);
        let w = first_ws_index(t);
        if w < 0 {
            None
        } else {
            match parsed_u32(t.take(w)) {
                None => None,
                Some(id) => {
                    let name = trimmed(t.skip(w + 1));
                    if name.len() == 0 {
                        None
                    } else {
                        Some((id, name))
                    }
                },
            }
        }
    }
}

/// Reads a port header line (see [`port_header`]).
pub fn parse_port_header(line: &str) -> (r: Option<(u32, String)>)
    ensures
        match port_header(line@) {
            Some((id, name)) => r matches Some((i, n)) && i == id && n@ == name,
            None => r.is_none(),
        },
{
    let v = chars_of(line);
    let right = chars_of("|->");
    let left = chars_of("|<-");
    if chars_contain(v.as_slice(), right.as_slice()) || chars_contain(v.as_slice(), left.as_slice()) {
        return None;
    }
    let t = trim_chars(v.as_slice());
    let w = match chars_first_ws(t.as_slice()) {
        Some(w) => w,
        None => return None,
    };
    let id_chars = chars_range(t.as_slice(), 0, w);
    assert(id_chars@ =~= t@.take(w as int));
    let id = match parse_u32(id_chars.as_slice()) {
        Some(id) => id,
        None => return None,
    };
    let rest = chars_range(t.as_slice(), w + 1, t.len());
    assert(rest@ =~= t@.skip(w + 1));
    let name = trim_chars(rest.as_slice());
    if name.len() == 0 {
        return None;
    }
    Some((id, string_from_chars(name.as_slice())))
}

/// What a link line of `pw-link -I -l` holds: the link's id, its direction and
/// the name of the port at its other end. Its words are the id, an arrow (`|->`
/// or `|<-`), the other port's id, and the other port's name, which may hold
/// single spaces.
pub open spec fn link_line(line: Seq<char>) -> Option<(u32, LinkDirection, Seq<char>)> {
    let ws = words(trimmed(line));
    if ws.len() < 3 {
        None
    } else {
        match parsed_u32(ws[0]) {
            None => None,
            Some(id) => {
                if ws[1] != "|->"@ && ws[1] != "|<-"@ {
                    None
                } else {
                    let port = joined(ws.skip(3), " "@);
                    if port.len() == 0 {
                        None
                    } else {
                        Some((id, if ws[1] == "|->"@ { LinkDirection::Output } else { LinkDirection::Input }, port))
                    }
                }
            },
        }
    }
}

/// Reads a link line (see [`link_line`]).
pub fn parse_link_line(line: &str) -> (r: Option<(u32, LinkDirection, String)>)
    ensures
        match link_line(line@) {
            Some((id, dir, port)) => r matches Some((i, d, p)) && i == id && d == dir && p@ == port,
            None => r.is_none(),
        },
{
    let v = chars_of(line);
    let t = trim_chars(v.as_slice());
    let ws = chars_words(t.as_slice());
    let ghost wv = ws@.map_values(|w: Vec<char>| w@);
    assert(wv == words(trimmed(line@)));
    if ws.len() < 3 {
        return None;
    }
    assert(wv[0] == ws@[0]@);
    assert(wv[1] == ws@[1]@);
    let id = match parse_u32(ws[0].as_slice()) {
        Some(id) => id,
        None => return None,
    };
    let right = chars_of("|->");
    let left = chars_of("|<-");
    let is_right = crate::text::chars_eq(ws[1].as_slice(), right.as_slice());
    let is_left = crate::text::chars_eq(ws[1].as_slice(), left.as_slice());
    if !is_right && !is_left {
        return None;
    }
    let mut tail: Vec<Vec<char>> = Vec::new();
    let mut k: usize = 3;
    while k < ws.len()
        invariant
            3 <= k <= ws@.len(),
            wv == ws@.map_values(|w: Vec<char>| w@),
            tail@.map_values(|w: Vec<char>| w@) == wv.subrange(3, k as int),
        decreases ws@.len() - k,
    {
        let w = chars_range(ws[k].as_slice(), 0, ws[k].len());
        assert(ws@[k as int]@.subrange(0, ws@[k as int]@.len() as int) =~= ws@[k as int]@);
        assert(wv[k as int] == ws@[k as int]@);
        let ghost before = tail@.map_values(|w: Vec<char>| w@);
        tail.push(w);
        assert(tail@.map_values(|w: Vec<char>| w@) =~= before.push(wv[k as int]));
        k = k + 1;
        assert(tail@.map_values(|w: Vec<char>| w@) =~= wv.subrange(3, k as int));
    }
    assert(wv.subrange(3, k as int) =~= wv.skip(3));
    let space = chars_of(" ");
    let port = join_chars(&tail, space.as_slice());
    if port.len() == 0 {
        return None;
    }
    let dir = if is_right { LinkDirection::Output } else { LinkDirection::Input };
    Some((id, dir, string_from_chars(port.as_slice())))
}

/// Whether a listed link joins `source` to `dest`: a link listed under the source
/// going out to the destination, or under the destination coming in from the source.
pub open spec fn link_joins(current: Seq<char>, dir: LinkDirection, linked: Seq<char>, source: Seq<char>, dest: Seq<char>) -> bool {
    match dir {
        LinkDirection::Output => current == source && linked == dest,
        LinkDirection::Input => current == dest && linked == source,
    }
}

/// Reading a `pw-link -I -l` listing line by line: the port that the lines
/// below are listed under, and the ids of the links found joining `source` to `dest`.
pub open spec fn link_scan(ls: Seq<Seq<char>>, source: Seq<char>, dest: Seq<char>) -> (Seq<char>, Seq<u32>)
    decreases ls.len(),
{
    if ls.len() == 0 {
        (Seq::empty(), Seq::empty())
    } else {
        let (current, ids) = link_scan(ls.drop_last(), source, dest);
        let line = ls.last();
        match port_header(line) {
            Some((_, name)) => (name, ids),
            None => match link_line(line) {
                Some((id, dir, linked)) => if link_joins(current, dir, linked, source, dest) {
                    (current, ids.push(id))
                } else {
                    (current, ids)
                },
                None => (current, ids),
            },
        }
    }
}

/// The ids of the links that join `source_port` to `dest_port` in a
/// `pw-link -I -l` listing (see [`link_scan`]).
pub fn link_ids_in_listing(listing: &str, source_port: &str, dest_port: &str) -> (r: Vec<u32>)
    ensures
        r@ == link_scan(lines(listing@), source_port@, dest_port@).1,
{
    let text = chars_of(listing);
    let ls = chars_lines(text.as_slice());
    let ghost lv = ls@.map_values(|w: Vec<char>| w@);
    let mut current = String::new();
    let mut ids: Vec<u32> = Vec::new();
    let mut i: usize = 0;
    while i < ls.len()
        invariant
            i <= ls@.len(),
            lv == ls@.map_values(|w: Vec<char>| w@),
            lv == lines(listing@),
            (current@, ids@) == link_scan(lv.take(i as int), source_port@, dest_port@),
        decreases ls@.len() - i,
    {
        assert(lv.take(i + 1).drop_last() =~= lv.take(i as int));
        assert(lv.take(i + 1).last() == ls@[i as int]@);
        let line = string_from_chars(ls[i].as_slice());
        match parse_port_header(line.as_str()) {
            Some((_, name)) => {
                current = name;
            },
            None => {
                if let Some((id, dir, linked)) = parse_link_line(line.as_str()) {
                    let joins = match dir {
                        LinkDirection::Output => str_eq(current.as_str(), source_port) && str_eq(linked.as_str(), dest_port),
                        LinkDirection::Input => str_eq(current.as_str(), dest_port) && str_eq(linked.as_str(), source_port),
                    };
                    if joins {
                        ids.push(id);
                    }
                }
            },
        }
        i = i + 1;
    }
    assert(lv.take(i as int) =~= lv);
    ids
}

/// The ports of node `node_name` in a `pw-link` port listing: the trimmed lines that
/// start with the node's name and a colon, in ascending order.
pub open spec fn node_ports(listing: Seq<char>, node_name: Seq<char>) -> Seq<Seq<char>> {
    sorted_seq(lines(listing).map_values(|l: Seq<char>| trimmed(l)).filter(|l: Seq<char>| has_prefix(l, node_name + ":"@)))
}

/// The ports of a node in a `pw-link` port listing (see [`node_ports`]).
pub fn ports_in_listing(listing: &str, node_name: &str) -> (r: Vec<String>)
    ensures
        names(r@) == node_ports(listing@, node_name@),
{
    let text = chars_of(listing);
    let ls = chars_lines(text.as_slice());
    let ghost lv = ls@.map_values(|w: Vec<char>| w@);
    let ghost tv = lv.map_values(|l: Seq<char>| trimmed(l));
    let prefix_string = concat(node_name, ":");
    let prefix = chars_of(prefix_string.as_str());
    let mut found: Vec<String> = Vec::new();
    let mut i: usize = 0;
    while i < ls.len()
        invariant
            i <= ls@.len(),
            lv == ls@.map_values(|w: Vec<char>| w@),
            tv == lv.map_values(|l: Seq<char>| trimmed(l)),
            prefix@ == node_name@ + ":"@,
            names(found@) == tv.take(i as int).filter(|l: Seq<char>| has_prefix(l, node_name@ + ":"@)),
        decreases ls@.len() - i,
    {
        let t = trim_chars(ls[i].as_slice());
        assert(tv.take(i + 1).drop_last() =~= tv.take(i as int));
        assert(tv.take(i + 1).last() == t@);
        let ghost before = found@;
        if chars_start_with(t.as_slice(), prefix.as_slice()) {
            found.push(string_from_chars(t.as_slice()));
            assert(names(found@) =~= names(before).push(t@));
        }
        proof {
            reveal(Seq::filter);
        }
        assert(names(found@) =~= tv.take(i + 1).filter(|l: Seq<char>| has_prefix(l, node_name@ + ":"@)));
        i = i + 1;
    }
    assert(tv.take(i as int) =~= tv);
    sort_strings(found)
}

/// A virtual input endpoint that the mixer creates.
#[derive(Clone, Copy)]
pub struct VirtualEndpointSpec {
    pub node_name: &'static str,
    pub description: &'static str,
    pub media_class: &'static str,
}

impl VirtualEndpointSpec {
    pub fn new(node_name: &'static str, description: &'static str, media_class: &'static str) -> (r: Self)
        ensures
            r.node_name == node_name,
            r.description == description,
            r.media_class == media_class,
    {
        VirtualEndpointSpec { node_name, description, media_class }
    }
}

/// A virtual bus that the mixer creates: a sink, and a source that carries what
/// the sink receives.
#[derive(Clone, Copy)]
pub struct VirtualBusEndpointSpec {
    pub sink_node_name: &'static str,
    pub sink_description: &'static str,
    pub source_node_name: &'static str,
    pub source_description: &'static str,
}

impl VirtualBusEndpointSpec {
    pub fn new(
        sink_node_name: &'static str,
        sink_description: &'static str,
        source_node_name: &'static str,
        source_description: &'static str,
    ) -> (r: Self)
        ensures
            r.sink_node_name == sink_node_name,
            r.sink_description == sink_description,
            r.source_node_name == source_node_name,
            r.source_description == source_description,
    {
        VirtualBusEndpointSpec { sink_node_name, sink_description, source_node_name, source_description }
    }
}

/// The virtual inputs: node name, description, media class.
pub open spec fn virtual_inputs() -> Seq<(Seq<char>, Seq<char>, Seq<char>)> {
    seq![
        ("voicewire.in1"@, "VoiceWire VAIO"@, "Audio/Sink"@),
        ("voicewire.in2"@, "VoiceWire AUX"@, "Audio/Sink"@),
        ("voicewire.in3"@, "VoiceWire SYS"@, "Audio/Sink"@),
    ]
}

/// The virtual buses: sink node name and description, source node name and description.
pub open spec fn virtual_buses() -> Seq<(Seq<char>, Seq<char>, Seq<char>, Seq<char>)> {
    seq![
        ("voicewire.internal.b1"@, "VoiceWire-B1-Internal"@, "voicewire.b1"@, "VoiceWire-B1"@),
        ("voicewire.internal.b2"@, "VoiceWire-B2-Internal"@, "voicewire.b2"@, "VoiceWire-B2"@),
        ("voicewire.internal.b3"@, "VoiceWire-B3-Internal"@, "voicewire.b3"@, "VoiceWire-B3"@),
    ]
}

/// The virtual input endpoints (see [`virtual_inputs`]).
pub fn virtual_input_endpoints() -> (r: Vec<VirtualEndpointSpec>)
    ensures
        r@.map_values(|e: VirtualEndpointSpec| (e.node_name@, e.description@, e.media_class@)) == virtual_inputs(),
{
    let mut r = Vec::new();
    r.push(VirtualEndpointSpec::new("voicewire.in1", "VoiceWire VAIO", "Audio/Sink"));
    r.push(VirtualEndpointSpec::new("voicewire.in2", "VoiceWire AUX", "Audio/Sink"));
    r.push(VirtualEndpointSpec::new("voicewire.in3", "VoiceWire SYS", "Audio/Sink"));
    assert(r@.map_values(|e: VirtualEndpointSpec| (e.node_name@, e.description@, e.media_class@)) =~= virtual_inputs());
    r
}

/// The virtual bus endpoints (see [`virtual_buses`]).
pub fn virtual_bus_endpoints() -> (r: Vec<VirtualBusEndpointSpec>)
    ensures
        r@.map_values(|e: VirtualBusEndpointSpec| (e.sink_node_name@, e.sink_description@, e.source_node_name@, e.source_description@)) == virtual_buses(),
{
    let mut r = Vec::new();
    r.push(VirtualBusEndpointSpec::new("voicewire.internal.b1", "VoiceWire-B1-Internal", "voicewire.b1", "VoiceWire-B1"));
    r.push(VirtualBusEndpointSpec::new("voicewire.internal.b2", "VoiceWire-B2-Internal", "voicewire.b2", "VoiceWire-B2"));
    r.push(VirtualBusEndpointSpec::new("voicewire.internal.b3", "VoiceWire-B3-Internal", "voicewire.b3", "VoiceWire-B3"));
    assert(r@.map_values(|e: VirtualBusEndpointSpec| (e.sink_node_name@, e.sink_description@, e.source_node_name@, e.source_description@)) =~= virtual_buses());
    r
}

/// Whether a node belongs to the mixer: its name starts with `voicewire.`.
pub fn is_voicewire_virtual_node(node_name: &str) -> (r: bool)
    ensures
        r == crate::text::has_prefix(node_name@, "voicewire."@),
{
    crate::text::str_starts_with(node_name, "voicewire.")
}

/// The names of the nodes that the mixer manages.
pub open spec fn is_managed_name(name: Seq<char>) -> bool {
    ||| exists|i: int| 0 <= i < 3 && name == (#[trigger] virtual_inputs()[i]).0
    ||| exists|i: int| 0 <= i < 3 && (name == (#[trigger] virtual_buses()[i]).0 || name == virtual_buses()[i].2)
    ||| name == "voicewire.b1"@ || name == "voicewire.b2"@ || name == "voicewire.b3"@
}

/// Whether a node is one that the mixer manages: a virtual input, the sink or
/// source of a virtual bus.
pub fn is_managed_virtual_node(node_name: &str) -> (r: bool)
    ensures
        r == is_managed_name(node_name@),
{
    let inputs = virtual_input_endpoints();
    let buses = virtual_bus_endpoints();
    assert(inputs@.len() == 3 && buses@.len() == 3) by {
        assert(inputs@.map_values(|e: VirtualEndpointSpec| (e.node_name@, e.description@, e.media_class@)).len() == 3);
        assert(buses@.map_values(|e: VirtualBusEndpointSpec| (e.sink_node_name@, e.sink_description@, e.source_node_name@, e.source_description@)).len() == 3);
    }
    let mut i: usize = 0;
    while i < inputs.len()
        invariant
            i <= 3,
            inputs@.len() == 3,
            inputs@.map_values(|e: VirtualEndpointSpec| (e.node_name@, e.description@, e.media_class@)) == virtual_inputs(),
            forall|k: int| 0 <= k < i ==> node_name@ != (#[trigger] virtual_inputs()[k]).0,
        decreases 3 - i,
    {
        assert(virtual_inputs()[i as int].0 == inputs@[i as int].node_name@);
        if str_eq(inputs[i].node_name, node_name) {
            assert(is_managed_name(node_name@));
            return true;
        }
        i = i + 1;
    }
    let mut i: usize = 0;
    while i < buses.len()
        invariant
            i <= 3,
            buses@.len() == 3,
            buses@.map_values(|e: VirtualBusEndpointSpec| (e.sink_node_name@, e.sink_description@, e.source_node_name@, e.source_description@)) == virtual_buses(),
            forall|k: int| 0 <= k < i ==> node_name@ != (#[trigger] virtual_buses()[k]).0 && node_name@ != virtual_buses()[k].2,
        decreases 3 - i,
    {
        assert(virtual_buses()[i as int].0 == buses@[i as int].sink_node_name@);
        assert(virtual_buses()[i as int].2 == buses@[i as int].source_node_name@);
        if str_eq(buses[i].sink_node_name, node_name) || str_eq(buses[i].source_node_name, node_name) {
            assert(is_managed_name(node_name@));
            return true;
        }
        i = i + 1;
    }
    str_eq(node_name, "voicewire.b1") || str_eq(node_name, "voicewire.b2") || str_eq(node_name, "voicewire.b3")
}

/// A node that the mixer created, as listed by PipeWire.
#[derive(Debug)]
pub struct VirtualEndpointNode {
    pub id: u32,
    pub name: String,
    pub media_class: String,
}

/// Some listed node has this name and media class.
pub open spec fn has_node(nodes: Seq<VirtualEndpointNode>, name: Seq<char>, class: Seq<char>) -> bool {
    exists|k: int| 0 <= k < nodes.len() && (#[trigger] nodes[k]).name@ == name && nodes[k].media_class@ == class
}

/// Every virtual input is there with its media class, and every virtual bus has
/// its sink and its source.
pub open spec fn complete_layout(nodes: Seq<VirtualEndpointNode>) -> bool {
    &&& forall|i: int| 0 <= i < 3 ==> has_node(nodes, (#[trigger] virtual_inputs()[i]).0, virtual_inputs()[i].2)
    &&& forall|i: int| 0 <= i < 3 ==> has_node(nodes, (#[trigger] virtual_buses()[i]).0, "Audio/Sink"@)
        && has_node(nodes, virtual_buses()[i].2, "Audio/Source"@)
}

fn any_node(nodes: &[VirtualEndpointNode], name: &str, class: &str) -> (r: bool)
    ensures
        r == has_node(nodes@, name@, class@),
{
    let mut k: usize = 0;
    while k < nodes.len()
        invariant
            k <= nodes@.len(),
            forall|j: int| 0 <= j < k ==> !((#[trigger] nodes@[j]).name@ == name@ && nodes@[j].media_class@ == class@),
        decreases nodes@.len() - k,
    {
        if str_eq(nodes[k].name.as_str(), name) && str_eq(nodes[k].media_class.as_str(), class) {
            return true;
        }
        k = k + 1;
    }
    false
}

/// Whether the listed nodes make up the whole virtual layout (see [`complete_layout`]).
pub fn has_complete_virtual_layout(nodes: &[VirtualEndpointNode]) -> (r: bool)
    ensures
        r == complete_layout(nodes@),
{
    let inputs = virtual_input_endpoints();
    let buses = virtual_bus_endpoints();
    assert(inputs@.len() == 3 && buses@.len() == 3) by {
        assert(inputs@.map_values(|e: VirtualEndpointSpec| (e.node_name@, e.description@, e.media_class@)).len() == 3);
        assert(buses@.map_values(|e: VirtualBusEndpointSpec| (e.sink_node_name@, e.sink_description@, e.source_node_name@, e.source_description@)).len() == 3);
    }
    let mut i: usize = 0;
    while i < inputs.len()
        invariant
            i <= 3,
            inputs@.len() == 3,
            inputs@.map_values(|e: VirtualEndpointSpec| (e.node_name@, e.description@, e.media_class@)) == virtual_inputs(),
            forall|k: int| 0 <= k < i ==> has_node(nodes@, (#[trigger] virtual_inputs()[k]).0, virtual_inputs()[k].2),
        decreases 3 - i,
    {
        assert(virtual_inputs()[i as int].0 == inputs@[i as int].node_name@);
        assert(virtual_inputs()[i as int].2 == inputs@[i as int].media_class@);
        if !any_node(nodes, inputs[i].node_name, inputs[i].media_class) {
            return false;
        }
        i = i + 1;
    }
    let mut i: usize = 0;
    while i < buses.len()
        invariant
            i <= 3,
            buses@.len() == 3,
            buses@.map_values(|e: VirtualBusEndpointSpec| (e.sink_node_name@, e.sink_description@, e.source_node_name@, e.source_description@)) == virtual_buses(),
            forall|k: int| 0 <= k < 3 ==> has_node(nodes@, (#[trigger] virtual_inputs()[k]).0, virtual_inputs()[k].2),
            forall|k: int| 0 <= k < i ==> has_node(nodes@, (#[trigger] virtual_buses()[k]).0, "Audio/Sink"@)
                && has_node(nodes@, virtual_buses()[k].2, "Audio/Source"@),
        decreases 3 - i,
    {
        assert(virtual_buses()[i as int].0 == buses@[i as int].sink_node_name@);
        assert(virtual_buses()[i as int].2 == buses@[i as int].source_node_name@);
        if !(any_node(nodes, buses[i].sink_node_name, "Audio/Sink") && any_node(nodes, buses[i].source_node_name, "Audio/Source")) {
            return false;
        }
        i = i + 1;
    }
    true
}

/// The label of bus `bus_index`: `A1` to `A3`, `B1` to `B3`, otherwise `bus`.
pub open spec fn bus_label_of(bus_index: int) -> Seq<char> {
    if bus_index == 0 {
        "A1"@
    } else if bus_index == 1 {
        "A2"@
    } else if bus_index == 2 {
        "A3"@
    } else if bus_index == 3 {
        "B1"@
    } else if bus_index == 4 {
        "B2"@
    } else if bus_index == 5 {
        "B3"@
    } else {
        "bus"@
    }
}

/// The label of a bus (see [`bus_label_of`]).
pub fn bus_label(bus_index: usize) -> (r: &'static str)
    ensures
        r@ == bus_label_of(bus_index as int),
{
    match bus_index {
        0 => "A1",
        1 => "A2",
        2 => "A3",
        3 => "B1",
        4 => "B2",
        5 => "B3",
        _ => "bus",
    }
}

/// The route target label of a sink: the three virtual inputs are `VAIO`, `AUX`
/// and `SYS`; any other sink has none (empty).
pub open spec fn route_label_of_sink(name: Seq<char>) -> Seq<char> {
    if name == "voicewire.in1"@ {
        "VAIO"@
    } else if name == "voicewire.in2"@ {
        "AUX"@
    } else if name == "voicewire.in3"@ {
        "SYS"@
    } else {
        ""@
    }
}

/// The route target label of a sink (see [`route_label_of_sink`]).
pub fn sink_name_to_route_label(name: &str) -> (r: &'static str)
    ensures
        r@ == route_label_of_sink(name@),
{
    if str_eq(name, "voicewire.in1") {
        "VAIO"
    } else if str_eq(name, "voicewire.in2") {
        "AUX"
    } else if str_eq(name, "voicewire.in3") {
        "SYS"
    } else {
        ""
    }
}

/// The sink of a route target label, if it is one of the three.
pub open spec fn sink_of_route_label(target: Seq<char>) -> Option<Seq<char>> {
    if target == "VAIO"@ {
        Some("voicewire.in1"@)
    } else if target == "AUX"@ {
        Some("voicewire.in2"@)
    } else if target == "SYS"@ {
        Some("voicewire.in3"@)
    } else {
        None
    }
}

/// The sink that an application must be moved to for a route target label, or the
/// error for an unknown one.
pub fn route_target_sink(target: &str) -> (r: Result<&'static str, String>)
    ensures
        match sink_of_route_label(target@) {
            Some(sink) => r matches Ok(s) && s@ == sink,
            None => r matches Err(m) && m@ == "unsupported app route target \""@ + target@ + "\""@,
        },
{
    if str_eq(target, "VAIO") {
        Ok("voicewire.in1")
    } else if str_eq(target, "AUX") {
        Ok("voicewire.in2")
    } else if str_eq(target, "SYS") {
        Ok("voicewire.in3")
    } else {
        let m = concat("unsupported app route target \"", target);
        Err(concat(m.as_str(), "\""))
    }
}

/// An audio device node found in a PipeWire dump.
#[derive(Debug, PartialEq, Eq)]
pub struct PipeWireDeviceNode {
    pub id: u32,
    pub name: String,
    pub stable_id: String,
    pub node_name: String,
    pub device_class: String,
    pub kind: EndpointKind,
}

impl Clone for PipeWireDeviceNode {
    fn clone(&self) -> (r: Self)
        ensures
            r == *self,
    {
        PipeWireDeviceNode {
            id: self.id,
            name: self.name.clone(),
            stable_id: self.stable_id.clone(),
            node_name: self.node_name.clone(),
            device_class: self.device_class.clone(),
            kind: self.kind,
        }
    }
}

/// The device option that a node offers: connected, under its name, id and class.
pub open spec fn option_of(n: PipeWireDeviceNode) -> DeviceOption {
    DeviceOption { name: n.name, kind: n.kind, stable_id: n.stable_id, device_class: n.device_class, connected: true }
}

impl PipeWireDeviceNode {
    /// The device option that this node offers (see [`option_of`]).
    pub fn to_option(&self) -> (r: DeviceOption)
        ensures
            r == option_of(*self),
    {
        DeviceOption {
            name: self.name.clone(),
            kind: self.kind,
            stable_id: self.stable_id.clone(),
            device_class: self.device_class.clone(),
            connected: true,
        }
    }
}

/// Adds `item` unless a node with the same stable id is listed already.
pub fn push_unique_node(list: &mut Vec<PipeWireDeviceNode>, item: PipeWireDeviceNode)
    ensures
        final(list)@ == (if exists|k: int| 0 <= k < old(list)@.len() && (#[trigger] old(list)@[k]).stable_id@ == item.stable_id@ {
            old(list)@
        } else {
            old(list)@.push(item)
        }),
{
    let mut k: usize = 0;
    while k < list.len()
        invariant
            k <= list@.len(),
            list@ == old(list)@,
            forall|j: int| 0 <= j < k ==> (#[trigger] list@[j]).stable_id@ != item.stable_id@,
        decreases list@.len() - k,
    {
        if list[k].stable_id == item.stable_id {
            return;
        }
        k = k + 1;
    }
    list.push(item);
}

/// The id of a `pactl list short modules` line, when the module makes up one of
/// the virtual buses: the line's first tab-separated field is the id, and after
/// the second field its arguments name a bus's sink or source.
pub open spec fn module_line_id(line: Seq<char>) -> Option<u32> {
    let t1 = index_of(line, '\t');
    let first = if t1 < 0 { line } else { line.take(t1) };
    match parsed_u32(first) {
        None => None,
        Some(id) => {
            if t1 < 0 {
                None
            } else {
                let rest = line.skip(t1 + 1);
                let t2 = index_of(rest, '\t');
                let args = if t2 < 0 { Seq::<char>::empty() } else { rest.skip(t2 + 1) };
                if exists|i: int| 0 <= i < 3 && (has_infix(args, "sink_name="@ + (#[trigger] virtual_buses()[i]).0)
                    || has_infix(args, "source_name="@ + virtual_buses()[i].2)) {
                    Some(id)
                } else {
                    None
                }
            }
        },
    }
}

/// The ids of the modules in a `pactl list short modules` listing that make up
/// virtual buses, in order.
pub open spec fn module_ids(ls: Seq<Seq<char>>) -> Seq<u32>
    decreases ls.len(),
{
    if ls.len() == 0 {
        Seq::empty()
    } else {
        let rest = module_ids(ls.drop_last());
        match module_line_id(ls.last()) {
            Some(id) => rest.push(id),
            None => rest,
        }
    }
}

fn module_args_name_bus(args: &[char]) -> (r: bool)
    ensures
        r == exists|i: int| 0 <= i < 3 && (has_infix(args@, "sink_name="@ + (#[trigger] virtual_buses()[i]).0)
            || has_infix(args@, "source_name="@ + virtual_buses()[i].2)),
{
    let buses = virtual_bus_endpoints();
    assert(buses@.len() == 3) by {
        assert(buses@.map_values(|e: VirtualBusEndpointSpec| (e.sink_node_name@, e.sink_description@, e.source_node_name@, e.source_description@)).len() == 3);
    }
    let mut i: usize = 0;
    while i < buses.len()
        invariant
            i <= 3,
            buses@.len() == 3,
            buses@.map_values(|e: VirtualBusEndpointSpec| (e.sink_node_name@, e.sink_description@, e.source_node_name@, e.source_description@)) == virtual_buses(),
            forall|k: int| 0 <= k < i ==> !(has_infix(args@, "sink_name="@ + (#[trigger] virtual_buses()[k]).0)
                || has_infix(args@, "source_name="@ + virtual_buses()[k].2)),
        decreases 3 - i,
    {
        assert(virtual_buses()[i as int].0 == buses@[i as int].sink_node_name@);
        assert(virtual_buses()[i as int].2 == buses@[i as int].source_node_name@);
        let sink = concat("sink_name=", buses[i].sink_node_name);
        let source = concat("source_name=", buses[i].source_node_name);
        let sink_chars = chars_of(sink.as_str());
        let source_chars = chars_of(source.as_str());
        if chars_contain(args, sink_chars.as_slice()) || chars_contain(args, source_chars.as_slice()) {
            return true;
        }
        i = i + 1;
    }
    false
}

/// The module id of one listing line (see [`module_line_id`]).
fn module_id_of_line(line: &[char]) -> (r: Option<u32>)
    ensures
        r == module_line_id(line@),
{
    let n = line.len();
    let t1 = chars_index_of(line, '\t');
    proof {
        crate::text::lemma_index_of_bound(line@, '\t');
    }
    let first = match t1 {
        Some(k) => chars_range(line, 0, k),
        None => chars_range(line, 0, line.len()),
    };
    proof {
        if t1.is_none() {
            assert(line@.subrange(0, line@.len() as int) =~= line@);
        } else {
            assert(line@.subrange(0, t1.unwrap() as int) =~= line@.take(t1.unwrap() as int));
        }
    }
    let id = match parse_u32(first.as_slice()) {
        Some(id) => id,
        None => return None,
    };
    let k = match t1 {
        Some(k) => k,
        None => return None,
    };
    let rest = chars_range(line, k + 1, line.len());
    assert(rest@ =~= line@.skip(k + 1));
    let t2 = chars_index_of(rest.as_slice(), '\t');
    proof {
        crate::text::lemma_index_of_bound(rest@, '\t');
    }
    let args = match t2 {
        Some(k2) => chars_range(rest.as_slice(), k2 + 1, rest.len()),
        None => Vec::new(),
    };
    proof {
        if t2.is_some() {
            assert(args@ =~= rest@.skip(t2.unwrap() + 1));
        } else {
            assert(args@ =~= Seq::<char>::empty());
        }
    }
    if module_args_name_bus(args.as_slice()) {
        Some(id)
    } else {
        None
    }
}

/// The ids of the modules that make up virtual buses in a `pactl list short
/// modules` listing (see [`module_ids`]).
pub fn virtual_bus_module_ids(listing: &str) -> (r: Vec<u32>)
    ensures
        r@ == module_ids(lines(listing@)),
{
    let text = chars_of(listing);
    let ls = chars_lines(text.as_slice());
    let ghost lv = ls@.map_values(|w: Vec<char>| w@);
    let mut ids: Vec<u32> = Vec::new();
    let mut i: usize = 0;
    while i < ls.len()
        invariant
            i <= ls@.len(),
            lv == ls@.map_values(|w: Vec<char>| w@),
            ids@ == module_ids(lv.take(i as int)),
        decreases ls@.len() - i,
    {
        assert(lv.take(i + 1).drop_last() =~= lv.take(i as int));
        assert(lv.take(i + 1).last() == ls@[i as int]@);
        if let Some(id) = module_id_of_line(ls[i].as_slice()) {
            ids.push(id);
        }
        i = i + 1;
    }
    assert(lv.take(i as int) =~= lv);
    ids
}

/// A run of ASCII letters and digits with its first character in upper case and
/// the others in lower case (what `char::to_uppercase` and `str::to_lowercase`
/// give on ASCII).
pub open spec fn capitalized(p: Seq<char>) -> Seq<char> {
    if p.len() == 0 {
        Seq::empty()
    } else {
        seq![ascii_upper(p[0])] + p.drop_first().map_values(|c: char| ascii_lower(c))
    }
}

/// A binary name made readable: its runs of ASCII letters and digits,
/// capitalized, joined by single spaces.
pub open spec fn humanized(name: Seq<char>) -> Seq<char> {
    joined(alnum_runs(name).map_values(|p: Seq<char>| capitalized(p)), " "@)
}

fn upper_char(c: char) -> (r: char)
    ensures
        r == ascii_upper(c),
{
    if 'a' <= c && c <= 'z' {
        proof {
            assert(((c as u32) - 32) as char == ascii_upper(c));
        }
        ((c as u32 - 32) as u8) as char
    } else {
        c
    }
}

fn lower_char(c: char) -> (r: char)
    ensures
        r == ascii_lower(c),
{
    if 'A' <= c && c <= 'Z' {
        ((c as u32 + 32) as u8) as char
    } else {
        c
    }
}

fn capitalize(p: &Vec<char>) -> (r: Vec<char>)
    ensures
        r@ == capitalized(p@),
{
    let mut r: Vec<char> = Vec::new();
    if p.len() == 0 {
        return r;
    }
    r.push(upper_char(p[0]));
    let mut i: usize = 1;
    while i < p.len()
        invariant
            1 <= i <= p@.len(),
            r@ == seq![ascii_upper(p@[0])] + p@.subrange(1, i as int).map_values(|c: char| ascii_lower(c)),
        decreases p@.len() - i,
    {
        r.push(lower_char(p[i]));
        i = i + 1;
        assert(r@ =~= seq![ascii_upper(p@[0])] + p@.subrange(1, i as int).map_values(|c: char| ascii_lower(c)));
    }
    assert(p@.subrange(1, i as int) =~= p@.drop_first());
    r
}

/// A binary name made readable (see [`humanized`]).
pub fn humanize_binary_name(name: &str) -> (r: String)
    ensures
        r@ == humanized(name@),
{
    let v = chars_of(name);
    let runs = chars_alnum_runs(v.as_slice());
    let ghost rv = runs@.map_values(|w: Vec<char>| w@);
    let mut parts: Vec<Vec<char>> = Vec::new();
    let mut i: usize = 0;
    while i < runs.len()
        invariant
            i <= runs@.len(),
            rv == runs@.map_values(|w: Vec<char>| w@),
            parts@.map_values(|w: Vec<char>| w@) == rv.take(i as int).map_values(|p: Seq<char>| capitalized(p)),
        decreases runs@.len() - i,
    {
        let ghost before = parts@.map_values(|w: Vec<char>| w@);
        parts.push(capitalize(&runs[i]));
        assert(parts@.map_values(|w: Vec<char>| w@) =~= before.push(capitalized(rv[i as int])));
        i = i + 1;
        assert(parts@.map_values(|w: Vec<char>| w@) =~= rv.take(i as int).map_values(|p: Seq<char>| capitalized(p)));
    }
    assert(rv.take(i as int) =~= rv);
    let space = chars_of(" ");
    let joined_chars = join_chars(&parts, space.as_slice());
    string_from_chars(joined_chars.as_slice())
}

/// Stream names that say nothing about the application.
pub open spec fn is_technical(name: Seq<char>) -> bool {
    name == "playStream"@ || name == "WEBRTC VoiceEngine"@
}

/// Whether a stream name says nothing about the application (see [`is_technical`]).
pub fn is_technical_stream_name(name: &str) -> (r: bool)
    ensures
        r == is_technical(name@),
{
    str_eq(name, "playStream") || str_eq(name, "WEBRTC VoiceEngine")
}

/// A name for an application from one of its properties: the trimmed property,
/// made readable when it is all lower case; when the property is empty or
/// technical, the readable binary name, if there is one.
pub open spec fn normalized_name(primary: Seq<char>, binary: Seq<char>) -> Option<Seq<char>> {
    let t = trimmed(primary);
    if t.len() == 0 || is_technical(t) {
        if binary.len() > 0 {
            Some(humanized(binary))
        } else {
            None
        }
    } else {
        Some(
            if forall|i: int| 0 <= i < t.len() ==> !crate::text::unicode_is_lowercase(#[trigger] t[i]) {
                t
            } else if t == crate::text::unicode_lowercase(t) {
                humanized(t)
            } else {
                t
            },
        )
    }
}

/// A name for an application from one of its properties (see [`normalized_name`]).
pub fn normalized_app_name(primary: &str, binary_name: &str) -> (r: Option<String>)
    ensures
        match normalized_name(primary@, binary_name@) {
            Some(n) => r matches Some(x) && x@ == n,
            None => r.is_none(),
        },
{
    let trimmed_primary = trim_str(primary);
    if trimmed_primary.as_str().is_empty() || is_technical_stream_name(trimmed_primary.as_str()) {
        if !binary_name.is_empty() {
            return Some(humanize_binary_name(binary_name));
        }
        return None;
    }
    let t = chars_of(trimmed_primary.as_str());
    let mut i: usize = 0;
    let mut none_lower = true;
    while i < t.len() && none_lower
        invariant
            i <= t@.len(),
            none_lower == forall|k: int| 0 <= k < i ==> !crate::text::unicode_is_lowercase(#[trigger] t@[k]),
        decreases t@.len() - i,
    {
        if crate::text::char_is_lowercase(t[i]) {
            none_lower = false;
        }
        i = i + 1;
    }
    if none_lower {
        return Some(trimmed_primary);
    }
    let lower = crate::text::to_lowercase(trimmed_primary.as_str());
    if str_eq(trimmed_primary.as_str(), lower.as_str()) {
        Some(humanize_binary_name(trimmed_primary.as_str()))
    } else {
        Some(trimmed_primary)
    }
}

/// The name shown for an application stream: from its application name, else its
/// media name, else its binary (made readable), else `App <id>`.
pub open spec fn display_name(app_name: Seq<char>, media_name: Seq<char>, binary_name: Seq<char>, id: u32) -> Seq<char> {
    match normalized_name(app_name, binary_name) {
        Some(n) => n,
        None => match normalized_name(media_name, binary_name) {
            Some(n) => n,
            None => if binary_name.len() > 0 {
                humanized(binary_name)
            } else {
                "App "@ + crate::text::decimal(id as nat)
            },
        },
    }
}

/// The name shown for an application stream (see [`display_name`]).
pub fn display_app_name(app_name: &str, media_name: &str, binary_name: &str, id: u32) -> (r: String)
    ensures
        r@ == display_name(app_name@, media_name@, binary_name@, id),
{
    if let Some(name) = normalized_app_name(app_name, binary_name) {
        return name;
    }
    if let Some(name) = normalized_app_name(media_name, binary_name) {
        return name;
    }
    if !binary_name.is_empty() {
        return humanize_binary_name(binary_name);
    }
    let digits = crate::text::decimal_string(id as u64);
    concat("App ", digits.as_str())
}

/// A candidate detail: the readable binary name when it is the binary name,
/// otherwise the trimmed candidate; kept when not empty, different from the shown
/// name, and not technical.
pub open spec fn detail_candidate(candidate: Seq<char>, binary_name: Seq<char>, shown: Seq<char>) -> Option<Seq<char>> {
    let normalized = if candidate == binary_name { humanized(candidate) } else { trimmed(candidate) };
    if normalized.len() > 0 && normalized != shown && !is_technical(candidate) {
        Some(normalized)
    } else {
        None
    }
}

/// The detail shown under an application's name: the first kept candidate of its
/// media name, application name and binary name (see [`detail_candidate`]), or nothing.
pub open spec fn display_detail(app_name: Seq<char>, media_name: Seq<char>, binary_name: Seq<char>, shown: Seq<char>) -> Seq<char> {
    match detail_candidate(media_name, binary_name, shown) {
        Some(d) => d,
        None => match detail_candidate(app_name, binary_name, shown) {
            Some(d) => d,
            None => match detail_candidate(binary_name, binary_name, shown) {
                Some(d) => d,
                None => Seq::empty(),
            },
        },
    }
}

fn try_detail_candidate(candidate: &str, binary_name: &str, shown: &str) -> (r: Option<String>)
    ensures
        match detail_candidate(candidate@, binary_name@, shown@) {
            Some(d) => r matches Some(x) && x@ == d,
            None => r.is_none(),
        },
{
    let normalized = if str_eq(candidate, binary_name) {
        humanize_binary_name(candidate)
    } else {
        trim_str(candidate)
    };
    if !normalized.as_str().is_empty() && !str_eq(normalized.as_str(), shown) && !is_technical_stream_name(candidate) {
        Some(normalized)
    } else {
        None
    }
}

/// The detail shown under an application's name (see [`display_detail`]).
pub fn display_app_detail(app_name: &str, media_name: &str, binary_name: &str, display_name: &str) -> (r: String)
    ensures
        r@ == display_detail(app_name@, media_name@, binary_name@, display_name@),
{
    if let Some(d) = try_detail_candidate(media_name, binary_name, display_name) {
        return d;
    }
    if let Some(d) = try_detail_candidate(app_name, binary_name, display_name) {
        return d;
    }
    if let Some(d) = try_detail_candidate(binary_name, binary_name, display_name) {
        return d;
    }
    String::new()
}

/// The letters of a badge: the first two ASCII letters or digits of `base`, in
/// upper case; `--` when it has none.
pub open spec fn badge_letters(base: Seq<char>) -> Seq<char> {
    let letters = base.filter(|c: char| crate::text::is_ascii_alnum(c));
    if letters.len() == 0 {
        "--"@
    } else {
        letters.take(if letters.len() < 2 { letters.len() as int } else { 2 }).map_values(|c: char| ascii_upper(c))
    }
}

/// The hash that picks a badge's colour: each byte of the name, from the first,
/// folded in as `h * 31 + byte`, wrapping at 32 bits.
pub open spec fn badge_hash(bytes: Seq<u8>) -> u32
    decreases bytes.len(),
{
    if bytes.len() == 0 {
        0
    } else {
        vstd::wrapping::u32_specs::wrapping_add(
            vstd::wrapping::u32_specs::wrapping_mul(badge_hash(bytes.drop_last()), 31),
            bytes.last() as u32,
        )
    }
}

/// The colours that badges are drawn in.
pub open spec fn badge_palette() -> Seq<Seq<char>> {
    seq!["#5b463b"@, "#4c5f79"@, "#5a6b45"@, "#6b4b66"@, "#4f5b4b"@, "#6a5b3f"@]
}

/// What a badge is made from: the application name, else the binary name, else
/// the shown name.
pub open spec fn badge_base(name: Seq<char>, app_name: Seq<char>, binary_name: Seq<char>) -> Seq<char> {
    if app_name.len() > 0 {
        app_name
    } else if binary_name.len() > 0 {
        binary_name
    } else {
        name
    }
}

fn palette_color(i: u32) -> (r: &'static str)
    requires
        i < 6,
    ensures
        r@ == badge_palette()[i as int],
{
    if i == 0 {
        "#5b463b"
    } else if i == 1 {
        "#4c5f79"
    } else if i == 2 {
        "#5a6b45"
    } else if i == 3 {
        "#6b4b66"
    } else if i == 4 {
        "#4f5b4b"
    } else {
        "#6a5b3f"
    }
}

/// The badge of an application: its letters (see [`badge_letters`]) and its
/// colour, picked by the hash of the UTF-8 bytes of its base (see [`badge_base`]).
pub fn app_badge(name: &str, app_name: &str, binary_name: &str) -> (r: (String, String))
    ensures
        r.0@ == badge_letters(badge_base(name@, app_name@, binary_name@)),
        r.1@ == badge_palette()[(badge_hash(crate::text::utf8_of(badge_base(name@, app_name@, binary_name@))) % 6) as int],
{
    let base: &str = if !app_name.is_empty() {
        app_name
    } else if !binary_name.is_empty() {
        binary_name
    } else {
        name
    };
    let chars = chars_of(base);
    let ghost pred = |c: char| crate::text::is_ascii_alnum(c);
    let mut letters: Vec<char> = Vec::new();
    let mut i: usize = 0;
    while i < chars.len()
        invariant
            i <= chars@.len(),
            chars@ == base@,
            pred == (|c: char| crate::text::is_ascii_alnum(c)),
            letters@ == chars@.take(i as int).filter(pred),
        decreases chars@.len() - i,
    {
        proof {
            reveal(Seq::filter);
            assert(chars@.take(i + 1).drop_last() =~= chars@.take(i as int));
        }
        if crate::text::is_ascii_alnum_char(chars[i]) {
            letters.push(chars[i]);
        }
        i = i + 1;
    }
    assert(chars@.take(i as int) =~= chars@);
    let text: String = if letters.len() == 0 {
        "--".to_owned()
    } else {
        let count: usize = if letters.len() < 2 { letters.len() } else { 2 };
        let mut upper: Vec<char> = Vec::new();
        let mut k: usize = 0;
        while k < count
            invariant
                k <= count <= letters@.len(),
                upper@ == letters@.take(k as int).map_values(|c: char| ascii_upper(c)),
            decreases count - k,
        {
            upper.push(upper_char(letters[k]));
            k = k + 1;
            assert(upper@ =~= letters@.take(k as int).map_values(|c: char| ascii_upper(c)));
        }
        string_from_chars(upper.as_slice())
    };
    let bytes = base.as_bytes();
    let mut hash: u32 = 0;
    let mut j: usize = 0;
    while j < bytes.len()
        invariant
            j <= bytes@.len(),
            bytes@ == crate::text::utf8_of(base@),
            hash == badge_hash(bytes@.take(j as int)),
        decreases bytes@.len() - j,
    {
        assert(bytes@.take(j + 1).drop_last() =~= bytes@.take(j as int));
        hash = hash.wrapping_mul(31).wrapping_add(bytes[j] as u32);
        j = j + 1;
    }
    assert(bytes@.take(j as int) =~= bytes@);
    let color = palette_color(hash % 6).to_owned();
    (text, color)
}

/// A hardware bus bound to an output node.
#[derive(Debug, PartialEq, Eq)]
pub struct BusBinding {
    pub bus_index: usize,
    pub stable_id: String,
    pub node_name: String,
    pub node_id: u32,
}

impl Clone for BusBinding {
    fn clone(&self) -> (r: Self)
        ensures
            r == *self,
    {
        BusBinding {
            bus_index: self.bus_index,
            stable_id: self.stable_id.clone(),
            node_name: self.node_name.clone(),
            node_id: self.node_id,
        }
    }
}

/// The links made for one strip-to-bus route.
#[derive(Debug)]
pub struct ActiveRoute {
    pub strip_index: usize,
    pub bus_index: usize,
    pub links: Vec<RouteLink>,
}

/// What the PipeWire backend knows: the devices found, the virtual endpoints and
/// modules it made, which hardware buses are bound to which nodes, and the links
/// it made for each route.
#[derive(Debug)]
pub struct PipeWireDiscoveryBackend {
    pub known_input_nodes: Vec<PipeWireDeviceNode>,
    pub known_input_devices: Vec<DeviceOption>,
    pub known_output_devices: Vec<DeviceOption>,
    pub known_output_nodes: Vec<PipeWireDeviceNode>,
    pub connected: bool,
    pub virtual_endpoint_ids: Vec<u32>,
    pub virtual_bus_module_ids: Vec<u32>,
    pub bus_bindings: Vec<BusBinding>,
    pub active_routes: Vec<ActiveRoute>,
}

/// Index of the first node named `name`, or -1.
pub open spec fn first_node_named(nodes: Seq<PipeWireDeviceNode>, name: Seq<char>) -> int
    decreases nodes.len(),
{
    if nodes.len() == 0 {
        -1
    } else {
        let f = first_node_named(nodes.drop_last(), name);
        if f >= 0 {
            f
        } else if nodes.last().name@ == name {
            nodes.len() - 1
        } else {
            -1
        }
    }
}

proof fn lemma_first_node_named(nodes: Seq<PipeWireDeviceNode>, name: Seq<char>, m: int)
    requires
        0 <= m <= nodes.len(),
        first_node_named(nodes.take(m), name) >= 0,
    ensures
        first_node_named(nodes, name) == first_node_named(nodes.take(m), name),
    decreases nodes.len(),
{
    if m == nodes.len() {
        assert(nodes.take(m) =~= nodes);
    } else {
        assert(nodes.drop_last().take(m) =~= nodes.take(m));
        lemma_first_node_named(nodes.drop_last(), name, m);
    }
}

/// Index of the first node named `name`.
fn find_node_named(nodes: &Vec<PipeWireDeviceNode>, name: &str) -> (r: Option<usize>)
    ensures
        match r {
            Some(k) => first_node_named(nodes@, name@) == k as int && k < nodes@.len(),
            None => first_node_named(nodes@, name@) == -1,
        },
{
    let mut j: usize = 0;
    while j < nodes.len()
        invariant
            j <= nodes@.len(),
            first_node_named(nodes@.take(j as int), name@) == -1,
        decreases nodes@.len() - j,
    {
        assert(nodes@.take(j + 1).drop_last() =~= nodes@.take(j as int));
        if str_eq(nodes[j].name.as_str(), name) {
            proof {
                lemma_first_node_named(nodes@, name@, j + 1);
            }
            return Some(j);
        }
        j = j + 1;
    }
    assert(nodes@.take(j as int) =~= nodes@);
    None
}

/// The binding of bus `bus_index` to node `n`.
pub open spec fn binding_to(bus_index: usize, n: PipeWireDeviceNode) -> BusBinding {
    BusBinding { bus_index, stable_id: n.stable_id, node_name: n.node_name, node_id: n.id }
}

/// `e` reports bus `bus_index` bound to the device named `name`.
pub open spec fn is_binding_changed(e: BackendEvent, bus_index: usize, name: Seq<char>) -> bool {
    e matches BackendEvent::BusBindingChanged { bus_index: b, device_name } && b == bus_index && device_name@ == name
}

/// `e` reports an error with message `m`.
pub open spec fn is_error(e: BackendEvent, m: Seq<char>) -> bool {
    e matches BackendEvent::BackendError { message } && message@ == m
}

/// The bindings without those of bus `bus_index`.
pub open spec fn bindings_without(bindings: Seq<BusBinding>, bus_index: usize) -> Seq<BusBinding> {
    bindings.filter(|b: BusBinding| b.bus_index != bus_index)
}

/// Whether bus `bus_index` is bound to node id `id` already.
pub open spec fn bound_to(bindings: Seq<BusBinding>, bus_index: usize, id: u32) -> bool {
    exists|k: int| 0 <= k < bindings.len() && (#[trigger] bindings[k]).bus_index == bus_index && bindings[k].node_id == id
}

/// Whether bus `bus_index` has a binding.
pub open spec fn has_binding(bindings: Seq<BusBinding>, bus_index: usize) -> bool {
    exists|k: int| 0 <= k < bindings.len() && (#[trigger] bindings[k]).bus_index == bus_index
}

/// The bindings after binding hardware bus `bus_index` to the found node `n`: kept
/// when it is bound to that node already, otherwise its old binding replaced.
pub open spec fn bindings_after_bind(bindings: Seq<BusBinding>, bus_index: usize, n: PipeWireDeviceNode) -> Seq<BusBinding> {
    if bound_to(bindings, bus_index, n.id) {
        bindings
    } else {
        bindings_without(bindings, bus_index).push(binding_to(bus_index, n))
    }
}

/// Index of the first node that a binding still matches by stable id or node name, or -1.
pub open spec fn rebinding_node(nodes: Seq<PipeWireDeviceNode>, b: BusBinding) -> int
    decreases nodes.len(),
{
    if nodes.len() == 0 {
        -1
    } else {
        let f = rebinding_node(nodes.drop_last(), b);
        if f >= 0 {
            f
        } else if nodes.last().stable_id@ == b.stable_id@ || nodes.last().node_name@ == b.node_name@ {
            nodes.len() - 1
        } else {
            -1
        }
    }
}

/// The bindings that survive a device refresh, each moved to the node that it
/// still matches; a binding that matches no node is dropped.
pub open spec fn rebound(bindings: Seq<BusBinding>, nodes: Seq<PipeWireDeviceNode>) -> Seq<BusBinding>
    decreases bindings.len(),
{
    if bindings.len() == 0 {
        Seq::empty()
    } else {
        let rest = rebound(bindings.drop_last(), nodes);
        let b = bindings.last();
        let k = rebinding_node(nodes, b);
        if k >= 0 {
            rest.push(binding_to(b.bus_index, nodes[k]))
        } else {
            rest
        }
    }
}

proof fn lemma_rebinding_node(nodes: Seq<PipeWireDeviceNode>, b: BusBinding, m: int)
    requires
        0 <= m <= nodes.len(),
        rebinding_node(nodes.take(m), b) >= 0,
    ensures
        rebinding_node(nodes, b) == rebinding_node(nodes.take(m), b),
    decreases nodes.len(),
{
    if m == nodes.len() {
        assert(nodes.take(m) =~= nodes);
    } else {
        assert(nodes.drop_last().take(m) =~= nodes.take(m));
        lemma_rebinding_node(nodes.drop_last(), b, m);
    }
}

proof fn lemma_first_node_named_bound(nodes: Seq<PipeWireDeviceNode>, name: Seq<char>)
    ensures
        -1 <= first_node_named(nodes, name) < nodes.len(),
        first_node_named(nodes, name) >= 0 ==> nodes[first_node_named(nodes, name)].name@ == name,
    decreases nodes.len(),
{
    if nodes.len() > 0 {
        lemma_first_node_named_bound(nodes.drop_last(), name);
    }
}

/// The name of the node that a bus sends to: a hardware bus's bound node, and the
/// internal sink of each virtual bus.
pub open spec fn bus_target(bindings: Seq<BusBinding>, bus_index: usize) -> Option<Seq<char>> {
    if bus_index < 3 {
        let k = first_binding_of(bindings, bus_index);
        if k >= 0 {
            Some(bindings[k].node_name@)
        } else {
            None
        }
    } else if bus_index == 3 {
        Some("voicewire.internal.b1"@)
    } else if bus_index == 4 {
        Some("voicewire.internal.b2"@)
    } else if bus_index == 5 {
        Some("voicewire.internal.b3"@)
    } else {
        None
    }
}

/// Index of the first binding of bus `bus_index`, or -1.
pub open spec fn first_binding_of(bindings: Seq<BusBinding>, bus_index: usize) -> int
    decreases bindings.len(),
{
    if bindings.len() == 0 {
        -1
    } else {
        let f = first_binding_of(bindings.drop_last(), bus_index);
        if f >= 0 {
            f
        } else if bindings.last().bus_index == bus_index {
            bindings.len() - 1
        } else {
            -1
        }
    }
}

proof fn lemma_first_binding_of(bindings: Seq<BusBinding>, bus_index: usize, m: int)
    requires
        0 <= m <= bindings.len(),
        first_binding_of(bindings.take(m), bus_index) >= 0,
    ensures
        first_binding_of(bindings, bus_index) == first_binding_of(bindings.take(m), bus_index),
    decreases bindings.len(),
{
    if m == bindings.len() {
        assert(bindings.take(m) =~= bindings);
    } else {
        assert(bindings.drop_last().take(m) =~= bindings.take(m));
        lemma_first_binding_of(bindings.drop_last(), bus_index, m);
    }
}

proof fn lemma_first_binding_of_none(bindings: Seq<BusBinding>, bus_index: usize)
    ensures
        (first_binding_of(bindings, bus_index) == -1) == !has_binding(bindings, bus_index),
        -1 <= first_binding_of(bindings, bus_index) < bindings.len(),
    decreases bindings.len(),
{
    if bindings.len() > 0 {
        lemma_first_binding_of_none(bindings.drop_last(), bus_index);
        if has_binding(bindings.drop_last(), bus_index) {
            let k = choose|k: int| 0 <= k < bindings.drop_last().len() && (#[trigger] bindings.drop_last()[k]).bus_index == bus_index;
            assert(bindings[k].bus_index == bus_index);
        }
        if has_binding(bindings, bus_index) && !has_binding(bindings.drop_last(), bus_index) {
            let k = choose|k: int| 0 <= k < bindings.len() && (#[trigger] bindings[k]).bus_index == bus_index;
            if k < bindings.len() - 1 {
                assert(bindings.drop_last()[k].bus_index == bus_index);
            }
        }
    }
}

/// Whether strip `strip_index` is heard: it exists, is not muted, and no other
/// unmuted strip of its kind is soloed while it is not.
pub open spec fn audible(s: SessionView, strip_index: int) -> bool {
    0 <= strip_index < s.strips.len() && {
        let strip = s.strips[strip_index];
        &&& !strip.muted
        &&& !(section_solo_active(s.strips, strip.endpoint_kind) && !strip.solo)
    }
}

/// Some unmuted strip of this kind is soloed.
pub open spec fn section_solo_active(strips: Seq<StripView>, kind: EndpointKind) -> bool {
    exists|k: int| 0 <= k < strips.len() && (#[trigger] strips[k]).endpoint_kind == kind && strips[k].solo && !strips[k].muted
}

/// Where a strip's volume and mute are set: the source node of a hardware input's
/// device, and the sink and monitor of each virtual input.
pub open spec fn volume_targets(inputs: Seq<PipeWireDeviceNode>, s: SessionView, strip_index: int) -> Seq<(Seq<char>, Seq<char>)> {
    if 0 <= strip_index < s.strips.len() {
        let strip = s.strips[strip_index];
        if strip.endpoint_kind == EndpointKind::HardwareInput {
            let k = first_node_named(inputs, strip.device_name@);
            if k >= 0 {
                seq![("source"@, inputs[k].node_name@)]
            } else {
                Seq::empty()
            }
        } else if strip.endpoint_kind == EndpointKind::VirtualInput {
            if strip_index == 3 {
                seq![("sink"@, "voicewire.in1"@), ("source"@, "voicewire.in1.monitor"@)]
            } else if strip_index == 4 {
                seq![("sink"@, "voicewire.in2"@), ("source"@, "voicewire.in2.monitor"@)]
            } else if strip_index == 5 {
                seq![("sink"@, "voicewire.in3"@), ("source"@, "voicewire.in3.monitor"@)]
            } else {
                Seq::empty()
            }
        } else {
            Seq::empty()
        }
    } else {
        Seq::empty()
    }
}

/// The node whose level a strip's meter reads: the hardware input's device node,
/// the monitor of each virtual input.
pub open spec fn meter_target(inputs: Seq<PipeWireDeviceNode>, s: SessionView, strip_index: int) -> Option<Seq<char>> {
    if 0 <= strip_index < s.strips.len() {
        let strip = s.strips[strip_index];
        if strip.endpoint_kind == EndpointKind::HardwareInput {
            let k = first_node_named(inputs, strip.device_name@);
            if k >= 0 {
                Some(inputs[k].node_name@)
            } else {
                None
            }
        } else if strip.endpoint_kind == EndpointKind::VirtualInput {
            if strip_index == 3 {
                Some("voicewire.in1.monitor"@)
            } else if strip_index == 4 {
                Some("voicewire.in2.monitor"@)
            } else if strip_index == 5 {
                Some("voicewire.in3.monitor"@)
            } else {
                None
            }
        } else {
            None
        }
    } else {
        None
    }
}

/// The message of a bus that cannot be bound to an unavailable device.
pub open spec fn unavailable_device_message(bus_index: usize, name: Seq<char>) -> Seq<char> {
    "could not bind "@ + bus_label_of(bus_index as int) + " to unavailable device \""@ + name + "\""@
}

impl PipeWireDiscoveryBackend {
    /// A backend that knows nothing yet and is not connected.
    pub fn new() -> (r: PipeWireDiscoveryBackend)
        ensures
            r.known_input_nodes@.len() == 0,
            r.known_input_devices@.len() == 0,
            r.known_output_devices@.len() == 0,
            r.known_output_nodes@.len() == 0,
            !r.connected,
            r.virtual_endpoint_ids@.len() == 0,
            r.virtual_bus_module_ids@.len() == 0,
            r.bus_bindings@.len() == 0,
            r.active_routes@.len() == 0,
    {
        PipeWireDiscoveryBackend {
            known_input_nodes: Vec::new(),
            known_input_devices: Vec::new(),
            known_output_devices: Vec::new(),
            known_output_nodes: Vec::new(),
            connected: false,
            virtual_endpoint_ids: Vec::new(),
            virtual_bus_module_ids: Vec::new(),
            bus_bindings: Vec::new(),
            active_routes: Vec::new(),
        }
    }

    /// The first known output node named `device_name`.
    pub fn resolve_output_node(&self, device_name: &str) -> (r: Option<&PipeWireDeviceNode>)
        ensures
            match r {
                Some(n) => first_node_named(self.known_output_nodes@, device_name@) >= 0
                    && *n == self.known_output_nodes@[first_node_named(self.known_output_nodes@, device_name@)],
                None => first_node_named(self.known_output_nodes@, device_name@) == -1,
            },
    {
        match find_node_named(&self.known_output_nodes, device_name) {
            Some(k) => Some(&self.known_output_nodes[k]),
            None => None,
        }
    }

    /// The first known input node named `device_name`.
    pub fn resolve_input_node(&self, device_name: &str) -> (r: Option<&PipeWireDeviceNode>)
        ensures
            match r {
                Some(n) => first_node_named(self.known_input_nodes@, device_name@) >= 0
                    && *n == self.known_input_nodes@[first_node_named(self.known_input_nodes@, device_name@)],
                None => first_node_named(self.known_input_nodes@, device_name@) == -1,
            },
    {
        match find_node_named(&self.known_input_nodes, device_name) {
            Some(k) => Some(&self.known_input_nodes[k]),
            None => None,
        }
    }

    fn remove_bindings_of(&mut self, bus_index: usize)
        ensures
            final(self).bus_bindings@ == bindings_without(old(self).bus_bindings@, bus_index),
            final(self).known_output_nodes == old(self).known_output_nodes,
            final(self).known_input_nodes == old(self).known_input_nodes,
            final(self).known_input_devices == old(self).known_input_devices,
            final(self).known_output_devices == old(self).known_output_devices,
            final(self).connected == old(self).connected,
            final(self).virtual_endpoint_ids == old(self).virtual_endpoint_ids,
            final(self).virtual_bus_module_ids == old(self).virtual_bus_module_ids,
            final(self).active_routes == old(self).active_routes,
    {
        let ghost all = self.bus_bindings@;
        let mut kept: Vec<BusBinding> = Vec::new();
        let mut i: usize = 0;
        while i < self.bus_bindings.len()
            invariant
                i <= all.len(),
                self.bus_bindings@ == all,
                kept@ == bindings_without(all.take(i as int), bus_index),
            decreases all.len() - i,
        {
            proof {
                reveal(Seq::filter);
                assert(all.take(i + 1).drop_last() =~= all.take(i as int));
            }
            if self.bus_bindings[i].bus_index != bus_index {
                kept.push(self.bus_bindings[i].clone());
            }
            i = i + 1;
        }
        assert(all.take(i as int) =~= all);
        self.bus_bindings = kept;
    }

    /// Binds hardware bus `bus_index` to the output device named `device_name`. A
    /// virtual bus is only reported; an empty name unbinds; an unknown device is an
    /// error; a bus already bound to the device stays so; otherwise the bus's old
    /// binding is replaced. Reports the bus bound to the device's name.
    pub fn bind_hardware_bus(&mut self, bus_index: usize, device_name: &str) -> (events: Vec<BackendEvent>)
        ensures
            final(self).known_output_nodes == old(self).known_output_nodes,
            final(self).known_input_nodes == old(self).known_input_nodes,
            final(self).known_input_devices == old(self).known_input_devices,
            final(self).known_output_devices == old(self).known_output_devices,
            final(self).connected == old(self).connected,
            final(self).virtual_endpoint_ids == old(self).virtual_endpoint_ids,
            final(self).virtual_bus_module_ids == old(self).virtual_bus_module_ids,
            final(self).active_routes == old(self).active_routes,
            events@.len() == 1,
            ({
                let nodes = old(self).known_output_nodes@;
                let k = first_node_named(nodes, device_name@);
                if bus_index >= 3 {
                    &&& is_binding_changed(events@[0], bus_index, device_name@)
                    &&& final(self).bus_bindings@ == old(self).bus_bindings@
                } else if device_name@.len() == 0 {
                    &&& is_binding_changed(events@[0], bus_index, Seq::empty())
                    &&& final(self).bus_bindings@ == bindings_without(old(self).bus_bindings@, bus_index)
                } else if k < 0 {
                    &&& is_error(events@[0], unavailable_device_message(bus_index, device_name@))
                    &&& final(self).bus_bindings@ == old(self).bus_bindings@
                } else {
                    &&& events@[0] == BackendEvent::BusBindingChanged { bus_index, device_name: nodes[k].name }
                    &&& final(self).bus_bindings@ == bindings_after_bind(old(self).bus_bindings@, bus_index, nodes[k])
                }
            }),
    {
        let mut events: Vec<BackendEvent> = Vec::new();
        if bus_index >= 3 {
            events.push(BackendEvent::BusBindingChanged { bus_index, device_name: device_name.to_owned() });
            return events;
        }
        if device_name.is_empty() {
            self.remove_bindings_of(bus_index);
            events.push(BackendEvent::BusBindingChanged { bus_index, device_name: String::new() });
            return events;
        }
        proof {
            lemma_first_node_named_bound(self.known_output_nodes@, device_name@);
        }
        let node = match self.resolve_output_node(device_name) {
            Some(n) => n.clone(),
            None => {
                let a = concat("could not bind ", bus_label(bus_index));
                let b = concat(a.as_str(), " to unavailable device \"");
                let c = concat(b.as_str(), device_name);
                let message = concat(c.as_str(), "\"");
                events.push(BackendEvent::BackendError { message });
                return events;
            },
        };
        let mut already = false;
        let mut i: usize = 0;
        while i < self.bus_bindings.len()
            invariant
                i <= self.bus_bindings@.len(),
                already == exists|k: int| 0 <= k < i && (#[trigger] self.bus_bindings@[k]).bus_index == bus_index
                    && self.bus_bindings@[k].node_id == node.id,
            decreases self.bus_bindings@.len() - i,
        {
            if self.bus_bindings[i].bus_index == bus_index && self.bus_bindings[i].node_id == node.id {
                already = true;
            }
            i = i + 1;
        }
        if already {
            events.push(BackendEvent::BusBindingChanged { bus_index, device_name: node.name });
            return events;
        }
        self.remove_bindings_of(bus_index);
        self.bus_bindings.push(BusBinding {
            bus_index,
            stable_id: node.stable_id.clone(),
            node_name: node.node_name.clone(),
            node_id: node.id,
        });
        events.push(BackendEvent::BusBindingChanged { bus_index, device_name: node.name });
        events
    }
}


/// Index of the first binding of bus `bus_index`.
fn find_binding_of(bindings: &Vec<BusBinding>, bus_index: usize) -> (r: Option<usize>)
    ensures
        match r {
            Some(k) => first_binding_of(bindings@, bus_index) == k as int && k < bindings@.len(),
            None => first_binding_of(bindings@, bus_index) == -1,
        },
{
    let mut j: usize = 0;
    while j < bindings.len()
        invariant
            j <= bindings@.len(),
            first_binding_of(bindings@.take(j as int), bus_index) == -1,
        decreases bindings@.len() - j,
    {
        assert(bindings@.take(j + 1).drop_last() =~= bindings@.take(j as int));
        if bindings[j].bus_index == bus_index {
            proof {
                lemma_first_binding_of(bindings@, bus_index, j + 1);
            }
            return Some(j);
        }
        j = j + 1;
    }
    assert(bindings@.take(j as int) =~= bindings@);
    None
}

/// Index of the first node that binding `b` still matches.
fn find_rebinding_node(nodes: &Vec<PipeWireDeviceNode>, b: &BusBinding) -> (r: Option<usize>)
    ensures
        match r {
            Some(k) => rebinding_node(nodes@, *b) == k as int && k < nodes@.len(),
            None => rebinding_node(nodes@, *b) == -1,
        },
{
    let mut j: usize = 0;
    while j < nodes.len()
        invariant
            j <= nodes@.len(),
            rebinding_node(nodes@.take(j as int), *b) == -1,
        decreases nodes@.len() - j,
    {
        assert(nodes@.take(j + 1).drop_last() =~= nodes@.take(j as int));
        if str_eq(nodes[j].stable_id.as_str(), b.stable_id.as_str()) || str_eq(nodes[j].node_name.as_str(), b.node_name.as_str()) {
            proof {
                lemma_rebinding_node(nodes@, *b, j + 1);
            }
            return Some(j);
        }
        j = j + 1;
    }
    assert(nodes@.take(j as int) =~= nodes@);
    None
}

/// The routes that stay after the bindings changed: a route to a hardware bus
/// stays only while that bus is bound.
pub open spec fn routes_kept(routes: Seq<ActiveRoute>, bindings: Seq<BusBinding>) -> Seq<ActiveRoute> {
    routes.filter(|r: ActiveRoute| r.bus_index >= 3 || has_binding(bindings, r.bus_index))
}

/// Whether some strip of kind `kind` is soloed and not muted.
fn solo_active_for(strips: &Vec<StripState>, kind: EndpointKind) -> (r: bool)
    ensures
        r == section_solo_active(strips@.map_values(|s: StripState| s@), kind),
{
    let ghost views = strips@.map_values(|s: StripState| s@);
    let mut j: usize = 0;
    while j < strips.len()
        invariant
            j <= strips@.len(),
            views == strips@.map_values(|s: StripState| s@),
            forall|k: int| 0 <= k < j ==> !((#[trigger] views[k]).endpoint_kind == kind && views[k].solo && !views[k].muted),
        decreases strips@.len() - j,
    {
        assert(views[j as int] == strips@[j as int]@);
        if strips[j].endpoint_kind == kind && strips[j].solo && !strips[j].muted {
            return true;
        }
        j = j + 1;
    }
    false
}

/// The route to create for strip `strip_index` into bus `bus_index`: the node
/// that the bus sends to, when the route is on, the strip is heard, and the bus
/// has a destination and is not muted.
pub open spec fn route_target_of(bindings: Seq<BusBinding>, s: SessionView, strip_index: int, bus_index: int) -> Option<Seq<char>> {
    if 0 <= strip_index < s.strips.len() && 0 <= bus_index < s.strips[strip_index].routes.len()
        && s.strips[strip_index].routes[bus_index].enabled && audible(s, strip_index)
        && bus_index < s.buses.len() && s.buses[bus_index].destination_name@.len() > 0
        && !s.buses[bus_index].muted {
        bus_target(bindings, bus_index as usize)
    } else {
        None
    }
}

/// The bindings and reports that come of binding, in order, each hardware bus of
/// the session that names a destination, is not bound yet and whose destination
/// is a known output node.
pub open spec fn session_bindings(bindings: Seq<BusBinding>, nodes: Seq<PipeWireDeviceNode>, buses: Seq<BusView>, n: int) -> (Seq<BusBinding>, Seq<(usize, String)>)
    decreases n,
{
    if n <= 0 {
        (bindings, Seq::empty())
    } else {
        let (b, ev) = session_bindings(bindings, nodes, buses, n - 1);
        let bi = (n - 1) as usize;
        let dest = buses[n - 1].destination_name@;
        let k = first_node_named(nodes, dest);
        if dest.len() > 0 && !has_binding(b, bi) && k >= 0 {
            (bindings_after_bind(b, bi, nodes[k]), ev.push((bi, nodes[k].name)))
        } else {
            (b, ev)
        }
    }
}

/// The links to remove with the route of strip `strip_index` into bus `bus_index`.
pub open spec fn links_of_route(routes: Seq<ActiveRoute>, strip_index: usize, bus_index: usize) -> Seq<RouteLink>
    decreases routes.len(),
{
    if routes.len() == 0 {
        Seq::empty()
    } else {
        let rest = links_of_route(routes.drop_last(), strip_index, bus_index);
        let r = routes.last();
        if r.strip_index == strip_index && r.bus_index == bus_index {
            rest + r.links@
        } else {
            rest
        }
    }
}

/// All the links of the routes made.
pub open spec fn all_links(routes: Seq<ActiveRoute>) -> Seq<RouteLink>
    decreases routes.len(),
{
    if routes.len() == 0 {
        Seq::empty()
    } else {
        all_links(routes.drop_last()) + routes.last().links@
    }
}

impl PipeWireDiscoveryBackend {
    /// Moves each bus binding to the output node that it still matches by stable
    /// id or node name, and drops those that match none.
    pub fn reconcile_bus_bindings(&mut self)
        ensures
            final(self).bus_bindings@ == rebound(old(self).bus_bindings@, old(self).known_output_nodes@),
            final(self).known_output_nodes == old(self).known_output_nodes,
            final(self).known_input_nodes == old(self).known_input_nodes,
            final(self).known_input_devices == old(self).known_input_devices,
            final(self).known_output_devices == old(self).known_output_devices,
            final(self).connected == old(self).connected,
            final(self).virtual_endpoint_ids == old(self).virtual_endpoint_ids,
            final(self).virtual_bus_module_ids == old(self).virtual_bus_module_ids,
            final(self).active_routes == old(self).active_routes,
    {
        let ghost all = self.bus_bindings@;
        let mut out: Vec<BusBinding> = Vec::new();
        let mut i: usize = 0;
        while i < self.bus_bindings.len()
            invariant
                i <= all.len(),
                self.bus_bindings@ == all,
                out@ == rebound(all.take(i as int), self.known_output_nodes@),
            decreases all.len() - i,
        {
            assert(all.take(i + 1).drop_last() =~= all.take(i as int));
            assert(all.take(i + 1).last() == all[i as int]);
            match find_rebinding_node(&self.known_output_nodes, &self.bus_bindings[i]) {
                Some(k) => {
                    let node = &self.known_output_nodes[k];
                    out.push(BusBinding {
                        bus_index: self.bus_bindings[i].bus_index,
                        stable_id: node.stable_id.clone(),
                        node_name: node.node_name.clone(),
                        node_id: node.id,
                    });
                },
                None => {},
            }
            i = i + 1;
        }
        assert(all.take(i as int) =~= all);
        self.bus_bindings = out;
    }

    /// Drops the routes to hardware buses that are no longer bound.
    pub fn reconcile_active_routes(&mut self)
        ensures
            final(self).active_routes@ == routes_kept(old(self).active_routes@, old(self).bus_bindings@),
            final(self).bus_bindings == old(self).bus_bindings,
            final(self).known_output_nodes == old(self).known_output_nodes,
            final(self).known_input_nodes == old(self).known_input_nodes,
            final(self).known_input_devices == old(self).known_input_devices,
            final(self).known_output_devices == old(self).known_output_devices,
            final(self).connected == old(self).connected,
            final(self).virtual_endpoint_ids == old(self).virtual_endpoint_ids,
            final(self).virtual_bus_module_ids == old(self).virtual_bus_module_ids,
    {
        let ghost all = self.active_routes@;
        let mut routes: Vec<ActiveRoute> = Vec::new();
        std::mem::swap(&mut routes, &mut self.active_routes);
        let mut kept: Vec<ActiveRoute> = Vec::new();
        let mut n: usize = 0;
        let total = routes.len();
        assert(total == all.len());
        while routes.len() > 0
            invariant
                n + routes@.len() == all.len(),
                all.len() <= usize::MAX,
                routes@ == all.skip(n as int),
                kept@ == routes_kept(all.take(n as int), self.bus_bindings@),
            decreases routes@.len(),
        {
            proof {
                reveal(Seq::filter);
                assert(all.take(n + 1).drop_last() =~= all.take(n as int));
                assert(all.skip(n as int)[0] == all[n as int]);
                assert(all.skip(n as int).remove(0) =~= all.skip(n + 1));
            }
            let r = routes.remove(0);
            let mut keep = r.bus_index >= 3;
            if !keep {
                match find_binding_of(&self.bus_bindings, r.bus_index) {
                    Some(_) => {
                        keep = true;
                    },
                    None => {},
                }
                proof {
                    lemma_first_binding_of_none(self.bus_bindings@, r.bus_index);
                }
            }
            if keep {
                kept.push(r);
            }
            n = n + 1;
        }
        assert(all.take(n as int) =~= all);
        self.active_routes = kept;
    }

    /// The node that bus `bus_index` sends to (see [`bus_target`]), whose volume
    /// and mute carry the bus's.
    pub fn resolve_bus_volume_target(&self, bus_index: usize) -> (r: Option<&str>)
        ensures
            match r {
                Some(s) => bus_target(self.bus_bindings@, bus_index) == Some(s@),
                None => bus_target(self.bus_bindings@, bus_index) is None,
            },
    {
        if bus_index < 3 {
            match find_binding_of(&self.bus_bindings, bus_index) {
                Some(k) => Some(self.bus_bindings[k].node_name.as_str()),
                None => None,
            }
        } else if bus_index == 3 {
            Some("voicewire.internal.b1")
        } else if bus_index == 4 {
            Some("voicewire.internal.b2")
        } else if bus_index == 5 {
            Some("voicewire.internal.b3")
        } else {
            None
        }
    }

    /// The node that routes into bus `bus_index` are linked to (see [`bus_target`]).
    pub fn resolve_bus_target_node_name(&self, bus_index: usize) -> (r: Option<&str>)
        ensures
            match r {
                Some(s) => bus_target(self.bus_bindings@, bus_index) == Some(s@),
                None => bus_target(self.bus_bindings@, bus_index) is None,
            },
    {
        self.resolve_bus_volume_target(bus_index)
    }

    /// Whether strip `strip_index` is heard (see [`audible`]).
    pub fn strip_is_audible(&self, strip_index: usize, session: &SessionState) -> (r: bool)
        ensures
            r == audible(session@, strip_index as int),
    {
        if strip_index >= session.strips.len() {
            return false;
        }
        let strip = &session.strips[strip_index];
        assert(session@.strips[strip_index as int] == strip@);
        if strip.muted {
            return false;
        }
        let solo_active = solo_active_for(&session.strips, strip.endpoint_kind);
        if solo_active && !strip.solo {
            return false;
        }
        true
    }

    /// The nodes whose volume and mute carry strip `strip_index`'s gain and
    /// whether it is heard, each with the kind of node (see [`volume_targets`]).
    pub fn resolve_strip_volume_targets(&self, strip_index: usize, session: &SessionState) -> (r: Vec<(&'static str, String)>)
        ensures
            r@.map_values(|p: (&'static str, String)| (p.0@, p.1@)) == volume_targets(self.known_input_nodes@, session@, strip_index as int),
    {
        let mut r: Vec<(&'static str, String)> = Vec::new();
        if strip_index >= session.strips.len() {
            assert(r@.map_values(|p: (&'static str, String)| (p.0@, p.1@)) =~= Seq::empty());
            return r;
        }
        let strip = &session.strips[strip_index];
        assert(session@.strips[strip_index as int] == strip@);
        match strip.endpoint_kind {
            EndpointKind::HardwareInput => {
                proof {
                    lemma_first_node_named_bound(self.known_input_nodes@, strip.device_name@);
                }
                match self.resolve_input_node(strip.device_name.as_str()) {
                    Some(node) => {
                        r.push(("source", node.node_name.clone()));
                    },
                    None => {},
                }
            },
            EndpointKind::VirtualInput => {
                if strip_index == 3 {
                    r.push(("sink", "voicewire.in1".to_string()));
                    r.push(("source", "voicewire.in1.monitor".to_string()));
                } else if strip_index == 4 {
                    r.push(("sink", "voicewire.in2".to_string()));
                    r.push(("source", "voicewire.in2.monitor".to_string()));
                } else if strip_index == 5 {
                    r.push(("sink", "voicewire.in3".to_string()));
                    r.push(("source", "voicewire.in3.monitor".to_string()));
                }
            },
            _ => {},
        }
        assert(r@.map_values(|p: (&'static str, String)| (p.0@, p.1@)) =~= volume_targets(self.known_input_nodes@, session@, strip_index as int));
        r
    }

    /// The node whose level strip `strip_index`'s meter reads (see [`meter_target`]).
    pub fn resolve_strip_meter_target(&self, strip_index: usize, session: &SessionState) -> (r: Option<String>)
        ensures
            match r {
                Some(s) => meter_target(self.known_input_nodes@, session@, strip_index as int) == Some(s@),
                None => meter_target(self.known_input_nodes@, session@, strip_index as int) is None,
            },
    {
        if strip_index >= session.strips.len() {
            return None;
        }
        let strip = &session.strips[strip_index];
        assert(session@.strips[strip_index as int] == strip@);
        match strip.endpoint_kind {
            EndpointKind::HardwareInput => {
                proof {
                    lemma_first_node_named_bound(self.known_input_nodes@, strip.device_name@);
                }
                match self.resolve_input_node(strip.device_name.as_str()) {
                    Some(node) => Some(node.node_name.clone()),
                    None => None,
                }
            },
            EndpointKind::VirtualInput => {
                if strip_index == 3 {
                    Some("voicewire.in1.monitor".to_string())
                } else if strip_index == 4 {
                    Some("voicewire.in2.monitor".to_string())
                } else if strip_index == 5 {
                    Some("voicewire.in3.monitor".to_string())
                } else {
                    None
                }
            },
            _ => None,
        }
    }
}


/// The pair of suffixes that a virtual input's monitor ports carry.
pub open spec fn monitor_pairs() -> Seq<(Seq<char>, Seq<char>)> {
    seq![("monitor_FL"@, "monitor_FR"@)]
}

/// The pairs of suffixes that a bus's playback ports carry, in order of preference.
pub open spec fn playback_pairs() -> Seq<(Seq<char>, Seq<char>)> {
    seq![("playback_FL"@, "playback_FR"@), ("playback_AUX0"@, "playback_AUX1"@)]
}

/// The node whose output ports feed strip `strip_index`'s routes, or why there
/// is none.
pub open spec fn route_source_of(inputs: Seq<PipeWireDeviceNode>, s: SessionView, strip_index: int) -> Result<Seq<char>, Seq<char>> {
    if !(0 <= strip_index < s.strips.len()) {
        Err("strip "@ + decimal(strip_index as nat) + " was missing"@)
    } else {
        let strip = s.strips[strip_index];
        if strip.endpoint_kind == EndpointKind::HardwareInput {
            let k = first_node_named(inputs, strip.device_name@);
            if k >= 0 {
                Ok(inputs[k].node_name@)
            } else {
                Err(strip.title@ + " is not assigned to an available input device"@)
            }
        } else if strip.endpoint_kind == EndpointKind::VirtualInput {
            if strip_index == 3 {
                Ok("voicewire.in1"@)
            } else if strip_index == 4 {
                Ok("voicewire.in2"@)
            } else if strip_index == 5 {
                Ok("voicewire.in3"@)
            } else {
                Err("unsupported virtual strip index "@ + decimal(strip_index as nat))
            }
        } else {
            Err(strip.title@ + " is not a routable strip source"@)
        }
    }
}

/// The links that carry a strip's source ports to a bus's left and right
/// playback port, or why there are none: a hardware input's capture pair (its
/// left port to both sides in mono), a virtual input's monitor pair (likewise).
pub open spec fn route_links_of(strip: StripView, ports: Seq<Seq<char>>, dest_left: Seq<char>, dest_right: Seq<char>) -> Result<Seq<(Seq<char>, Seq<char>)>, Seq<char>> {
    if strip.endpoint_kind == EndpointKind::HardwareInput {
        let links = if strip.mono {
            hardware_input_mono_links(ports, dest_left, dest_right)
        } else {
            hardware_input_links(ports, dest_left, dest_right)
        };
        match links {
            Some(ls) => Ok(ls),
            None => Err(strip.device_name@ + " has no usable capture ports"@),
        }
    } else if strip.endpoint_kind == EndpointKind::VirtualInput {
        match picked_ports(ports, monitor_pairs()) {
            Some((l, r)) => if strip.mono {
                Ok(seq![(ports[l], dest_left), (ports[l], dest_right)])
            } else {
                Ok(seq![(ports[l], dest_left), (ports[r], dest_right)])
            },
            None => Err(strip.device_name@ + " has no usable monitor ports"@),
        }
    } else {
        Err(strip.title@ + " is not a routable strip source"@)
    }
}

/// The left and right playback port of a bus, or why there are none.
pub open spec fn playback_ports_of(ports: Seq<Seq<char>>, destination_name: Seq<char>) -> Result<(Seq<char>, Seq<char>), Seq<char>> {
    match picked_ports(ports, playback_pairs()) {
        Some((l, r)) => Ok((ports[l], ports[r])),
        None => Err(destination_name + " has no usable playback ports"@),
    }
}

/// The left and right playback port among a bus's input ports (see
/// [`playback_ports_of`]).
pub fn playback_ports(ports: &[String], destination_name: &str) -> (r: Result<(String, String), String>)
    ensures
        match r {
            Ok((a, b)) => playback_ports_of(names(ports@), destination_name@) == Ok::<(Seq<char>, Seq<char>), Seq<char>>((a@, b@)),
            Err(m) => playback_ports_of(names(ports@), destination_name@) == Err::<(Seq<char>, Seq<char>), Seq<char>>(m@),
        },
{
    let pairs: [(&str, &str); 2] = [("playback_FL", "playback_FR"), ("playback_AUX0", "playback_AUX1")];
    proof {
        reveal_strlit("playback_FL");
        reveal_strlit("playback_FR");
        reveal_strlit("playback_AUX0");
        reveal_strlit("playback_AUX1");
        assert(pairs_view(pairs@) =~= playback_pairs());
        lemma_picked_ports(names(ports@), playback_pairs());
    }
    match pick_stereo_ports(ports, pairs.as_slice()) {
        Some((left, right)) => {
            proof {
                let (l, r) = picked_ports(names(ports@), playback_pairs())->Some_0;
                assert(names(ports@)[l] == ports@[l]@);
                assert(names(ports@)[r] == ports@[r]@);
            }
            Ok((left, right))
        },
        None => Err(concat(destination_name, " has no usable playback ports")),
    }
}

/// The links for a route out of `strip` (see [`route_links_of`]).
pub fn route_links(strip: &StripState, ports: &[String], dest_left: &str, dest_right: &str) -> (r: Result<Vec<RouteLink>, String>)
    ensures
        match r {
            Ok(v) => route_links_of(strip@, names(ports@), dest_left@, dest_right@) == Ok::<Seq<(Seq<char>, Seq<char>)>, Seq<char>>(links_view(v@)),
            Err(m) => route_links_of(strip@, names(ports@), dest_left@, dest_right@) == Err::<Seq<(Seq<char>, Seq<char>)>, Seq<char>>(m@),
        },
{
    match strip.endpoint_kind {
        EndpointKind::HardwareInput => {
            let links = if strip.mono {
                build_hardware_input_mono_links(ports, dest_left, dest_right)
            } else {
                build_hardware_input_links(ports, dest_left, dest_right)
            };
            match links {
                Some(v) => Ok(v),
                None => Err(concat(strip.device_name.as_str(), " has no usable capture ports")),
            }
        },
        EndpointKind::VirtualInput => {
            let pairs: [(&str, &str); 1] = [("monitor_FL", "monitor_FR")];
            proof {
                reveal_strlit("monitor_FL");
                reveal_strlit("monitor_FR");
                assert(pairs_view(pairs@) =~= monitor_pairs());
                lemma_picked_ports(names(ports@), monitor_pairs());
            }
            match pick_stereo_ports(ports, pairs.as_slice()) {
                Some((left, right)) => {
                    proof {
                        let (l, r) = picked_ports(names(ports@), monitor_pairs())->Some_0;
                        assert(names(ports@)[l] == ports@[l]@);
                        assert(names(ports@)[r] == ports@[r]@);
                    }
                    let mut v: Vec<RouteLink> = Vec::new();
                    if strip.mono {
                        v.push(make_link(left.clone(), dest_left));
                        v.push(make_link(left, dest_right));
                    } else {
                        v.push(make_link(left, dest_left));
                        v.push(make_link(right, dest_right));
                    }
                    assert(links_view(v@) =~= route_links_of(strip@, names(ports@), dest_left@, dest_right@)->Ok_0);
                    Ok(v)
                },
                None => Err(concat(strip.device_name.as_str(), " has no usable monitor ports")),
            }
        },
        _ => Err(concat(strip.title.as_str(), " is not a routable strip source")),
    }
}

impl PipeWireDiscoveryBackend {
    /// Binds, in order, each hardware bus of the session that names a known
    /// output device and is not bound yet (see [`session_bindings`]).
    pub fn ensure_session_bus_bindings(&mut self, session: &SessionState) -> (events: Vec<BackendEvent>)
        ensures
            ({
                let n = if session@.buses.len() < 3 { session@.buses.len() as int } else { 3 };
                let (b, ev) = session_bindings(old(self).bus_bindings@, old(self).known_output_nodes@, session@.buses, n);
                &&& final(self).bus_bindings@ == b
                &&& events@.len() == ev.len()
                &&& forall|i: int| 0 <= i < ev.len() ==> #[trigger] events@[i] == (BackendEvent::BusBindingChanged { bus_index: ev[i].0, device_name: ev[i].1 })
            }),
            final(self).known_output_nodes == old(self).known_output_nodes,
            final(self).known_input_nodes == old(self).known_input_nodes,
            final(self).known_input_devices == old(self).known_input_devices,
            final(self).known_output_devices == old(self).known_output_devices,
            final(self).connected == old(self).connected,
            final(self).virtual_endpoint_ids == old(self).virtual_endpoint_ids,
            final(self).virtual_bus_module_ids == old(self).virtual_bus_module_ids,
            final(self).active_routes == old(self).active_routes,
    {
        let n: usize = if session.buses.len() < 3 { session.buses.len() } else { 3 };
        let mut events: Vec<BackendEvent> = Vec::new();
        let mut i: usize = 0;
        while i < n
            invariant
                i <= n,
                n <= 3,
                n <= session@.buses.len(),
                ({
                    let (b, ev) = session_bindings(old(self).bus_bindings@, old(self).known_output_nodes@, session@.buses, i as int);
                    &&& self.bus_bindings@ == b
                    &&& events@.len() == ev.len()
                    &&& forall|j: int| 0 <= j < ev.len() ==> #[trigger] events@[j] == (BackendEvent::BusBindingChanged { bus_index: ev[j].0, device_name: ev[j].1 })
                }),
                self.known_output_nodes == old(self).known_output_nodes,
                self.known_input_nodes == old(self).known_input_nodes,
                self.known_input_devices == old(self).known_input_devices,
                self.known_output_devices == old(self).known_output_devices,
                self.connected == old(self).connected,
                self.virtual_endpoint_ids == old(self).virtual_endpoint_ids,
                self.virtual_bus_module_ids == old(self).virtual_bus_module_ids,
                self.active_routes == old(self).active_routes,
            decreases n - i,
        {
            let bus = &session.buses[i];
            assert(session@.buses[i as int] == bus@);
            let ghost prev_events = events@;
            let ghost nodes = self.known_output_nodes@;
            let ghost (b0, ev0) = session_bindings(old(self).bus_bindings@, old(self).known_output_nodes@, session@.buses, i as int);
            let ghost dest = bus.destination_name@;
            let ghost k = first_node_named(nodes, dest);
            proof {
                lemma_first_binding_of_none(self.bus_bindings@, i);
                lemma_first_node_named_bound(self.known_output_nodes@, bus.destination_name@);
                assert(session@.buses[i as int].destination_name@ == dest);
            }
            let mut bound = false;
            if !bus.destination_name.as_str().is_empty() && find_binding_of(&self.bus_bindings, i).is_none() {
                if self.resolve_output_node(bus.destination_name.as_str()).is_some() {
                    let mut evs = self.bind_hardware_bus(i, bus.destination_name.as_str());
                    let ghost e0 = evs@[0];
                    events.append(&mut evs);
                    assert(events@ =~= prev_events.push(e0));
                    bound = true;
                    proof {
                        assert(dest.len() > 0 && !has_binding(b0, i) && k >= 0);
                        assert(self.bus_bindings@ == bindings_after_bind(b0, i, nodes[k]));
                        assert(e0 == BackendEvent::BusBindingChanged { bus_index: i, device_name: nodes[k].name });
                    }
                }
            }
            proof {
                let (b1, ev1) = session_bindings(old(self).bus_bindings@, old(self).known_output_nodes@, session@.buses, i + 1);
                if bound {
                    assert(b1 == bindings_after_bind(b0, i, nodes[k]));
                    assert(ev1 == ev0.push((i, nodes[k].name)));
                } else {
                    assert(!(dest.len() > 0 && !has_binding(b0, i) && k >= 0));
                    assert(b1 == b0 && ev1 == ev0);
                }
            }
            i = i + 1;
        }
        events
    }

    /// Takes out the route of strip `strip_index` into bus `bus_index` and hands
    /// back its links, which are to be removed.
    pub fn take_route_links(&mut self, strip_index: usize, bus_index: usize) -> (links: Vec<RouteLink>)
        ensures
            links@ == links_of_route(old(self).active_routes@, strip_index, bus_index),
            final(self).active_routes@ == old(self).active_routes@.filter(|r: ActiveRoute| !(r.strip_index == strip_index && r.bus_index == bus_index)),
            final(self).bus_bindings == old(self).bus_bindings,
            final(self).known_output_nodes == old(self).known_output_nodes,
            final(self).known_input_nodes == old(self).known_input_nodes,
            final(self).known_input_devices == old(self).known_input_devices,
            final(self).known_output_devices == old(self).known_output_devices,
            final(self).connected == old(self).connected,
            final(self).virtual_endpoint_ids == old(self).virtual_endpoint_ids,
            final(self).virtual_bus_module_ids == old(self).virtual_bus_module_ids,
    {
        let ghost all = self.active_routes@;
        let mut routes: Vec<ActiveRoute> = Vec::new();
        std::mem::swap(&mut routes, &mut self.active_routes);
        let mut kept: Vec<ActiveRoute> = Vec::new();
        let mut links: Vec<RouteLink> = Vec::new();
        let mut n: usize = 0;
        let total = routes.len();
        assert(total == all.len());
        while routes.len() > 0
            invariant
                n + routes@.len() == all.len(),
                all.len() <= usize::MAX,
                routes@ == all.skip(n as int),
                kept@ == all.take(n as int).filter(|r: ActiveRoute| !(r.strip_index == strip_index && r.bus_index == bus_index)),
                links@ == links_of_route(all.take(n as int), strip_index, bus_index),
            decreases routes@.len(),
        {
            proof {
                reveal(Seq::filter);
                assert(all.take(n + 1).drop_last() =~= all.take(n as int));
                assert(all.skip(n as int)[0] == all[n as int]);
                assert(all.skip(n as int).remove(0) =~= all.skip(n + 1));
            }
            let r = routes.remove(0);
            if r.strip_index == strip_index && r.bus_index == bus_index {
                let mut ls = r.links;
                links.append(&mut ls);
            } else {
                kept.push(r);
            }
            n = n + 1;
        }
        assert(all.take(n as int) =~= all);
        self.active_routes = kept;
        links
    }

    /// Takes out every route made and hands back all their links.
    pub fn take_all_route_links(&mut self) -> (links: Vec<RouteLink>)
        ensures
            links@ == all_links(old(self).active_routes@),
            final(self).active_routes@.len() == 0,
            final(self).bus_bindings == old(self).bus_bindings,
            final(self).known_output_nodes == old(self).known_output_nodes,
            final(self).known_input_nodes == old(self).known_input_nodes,
            final(self).known_input_devices == old(self).known_input_devices,
            final(self).known_output_devices == old(self).known_output_devices,
            final(self).connected == old(self).connected,
            final(self).virtual_endpoint_ids == old(self).virtual_endpoint_ids,
            final(self).virtual_bus_module_ids == old(self).virtual_bus_module_ids,
    {
        let ghost all = self.active_routes@;
        let mut routes: Vec<ActiveRoute> = Vec::new();
        std::mem::swap(&mut routes, &mut self.active_routes);
        let mut links: Vec<RouteLink> = Vec::new();
        let mut n: usize = 0;
        let total = routes.len();
        assert(total == all.len());
        while routes.len() > 0
            invariant
                n + routes@.len() == all.len(),
                all.len() <= usize::MAX,
                routes@ == all.skip(n as int),
                links@ == all_links(all.take(n as int)),
                self.active_routes@.len() == 0,
            decreases routes@.len(),
        {
            proof {
                assert(all.take(n + 1).drop_last() =~= all.take(n as int));
                assert(all.skip(n as int)[0] == all[n as int]);
                assert(all.skip(n as int).remove(0) =~= all.skip(n + 1));
            }
            let r = routes.remove(0);
            let mut ls = r.links;
            links.append(&mut ls);
            n = n + 1;
        }
        assert(all.take(n as int) =~= all);
        links
    }

    /// Records the links made for the route of strip `strip_index` into bus `bus_index`.
    pub fn record_route(&mut self, strip_index: usize, bus_index: usize, links: Vec<RouteLink>)
        ensures
            final(self).active_routes@ == old(self).active_routes@.push(ActiveRoute { strip_index, bus_index, links }),
            final(self).bus_bindings == old(self).bus_bindings,
            final(self).known_output_nodes == old(self).known_output_nodes,
            final(self).known_input_nodes == old(self).known_input_nodes,
            final(self).known_input_devices == old(self).known_input_devices,
            final(self).known_output_devices == old(self).known_output_devices,
            final(self).connected == old(self).connected,
            final(self).virtual_endpoint_ids == old(self).virtual_endpoint_ids,
            final(self).virtual_bus_module_ids == old(self).virtual_bus_module_ids,
    {
        self.active_routes.push(ActiveRoute { strip_index, bus_index, links });
    }

    /// The node to link strip `strip_index` into for bus `bus_index`, when that
    /// route is to be made (see [`route_target_of`]).
    pub fn route_target(&self, strip_index: usize, bus_index: usize, session: &SessionState) -> (r: Option<&str>)
        ensures
            match r {
                Some(t) => route_target_of(self.bus_bindings@, session@, strip_index as int, bus_index as int) == Some(t@),
                None => route_target_of(self.bus_bindings@, session@, strip_index as int, bus_index as int) is None,
            },
    {
        if strip_index >= session.strips.len() {
            return None;
        }
        let strip = &session.strips[strip_index];
        assert(session@.strips[strip_index as int] == strip@);
        if bus_index >= strip.routes.len() || !strip.routes[bus_index].enabled {
            return None;
        }
        if !self.strip_is_audible(strip_index, session) {
            return None;
        }
        if bus_index >= session.buses.len() {
            return None;
        }
        let bus = &session.buses[bus_index];
        assert(session@.buses[bus_index as int] == bus@);
        if bus.destination_name.as_str().is_empty() || bus.muted {
            return None;
        }
        self.resolve_bus_target_node_name(bus_index)
    }

    /// The node whose output ports feed strip `strip_index`'s routes (see
    /// [`route_source_of`]).
    pub fn route_source(&self, strip_index: usize, session: &SessionState) -> (r: Result<String, String>)
        ensures
            match r {
                Ok(n) => route_source_of(self.known_input_nodes@, session@, strip_index as int) == Ok::<Seq<char>, Seq<char>>(n@),
                Err(m) => route_source_of(self.known_input_nodes@, session@, strip_index as int) == Err::<Seq<char>, Seq<char>>(m@),
            },
    {
        if strip_index >= session.strips.len() {
            let a = concat("strip ", decimal_string(strip_index as u64).as_str());
            return Err(concat(a.as_str(), " was missing"));
        }
        let strip = &session.strips[strip_index];
        assert(session@.strips[strip_index as int] == strip@);
        match strip.endpoint_kind {
            EndpointKind::HardwareInput => {
                proof {
                    lemma_first_node_named_bound(self.known_input_nodes@, strip.device_name@);
                }
                match self.resolve_input_node(strip.device_name.as_str()) {
                    Some(node) => Ok(node.node_name.clone()),
                    None => Err(concat(strip.title.as_str(), " is not assigned to an available input device")),
                }
            },
            EndpointKind::VirtualInput => {
                if strip_index == 3 {
                    Ok("voicewire.in1".to_string())
                } else if strip_index == 4 {
                    Ok("voicewire.in2".to_string())
                } else if strip_index == 5 {
                    Ok("voicewire.in3".to_string())
                } else {
                    Err(concat("unsupported virtual strip index ", decimal_string(strip_index as u64).as_str()))
                }
            },
            _ => Err(concat(strip.title.as_str(), " is not a routable strip source")),
        }
    }
}


/// Two lists of device options that `==` finds equal: the same length, and each
/// pair with the same name, kind, stable id, class and connection.
pub open spec fn same_options(a: Seq<DeviceOption>, b: Seq<DeviceOption>) -> bool {
    &&& a.len() == b.len()
    &&& forall|i: int| 0 <= i < a.len() ==> #[trigger] same_option(a[i], b[i])
}

/// Two device options that `==` finds equal.
pub open spec fn same_option(a: DeviceOption, b: DeviceOption) -> bool {
    &&& a.name@ == b.name@
    &&& a.kind == b.kind
    &&& a.stable_id@ == b.stable_id@
    &&& a.device_class@ == b.device_class@
    &&& a.connected == b.connected
}

/// Whether two lists of device options are equal (see [`same_options`]).
pub fn device_options_equal(a: &[DeviceOption], b: &[DeviceOption]) -> (r: bool)
    ensures
        r == same_options(a@, b@),
{
    if a.len() != b.len() {
        return false;
    }
    let mut i: usize = 0;
    while i < a.len()
        invariant
            i <= a@.len(),
            a@.len() == b@.len(),
            forall|j: int| 0 <= j < i ==> #[trigger] same_option(a@[j], b@[j]),
        decreases a@.len() - i,
    {
        let x = &a[i];
        let y = &b[i];
        if !(str_eq(x.name.as_str(), y.name.as_str()) && x.kind == y.kind && str_eq(x.stable_id.as_str(), y.stable_id.as_str())
            && str_eq(x.device_class.as_str(), y.device_class.as_str()) && x.connected == y.connected) {
            assert(!same_option(a@[i as int], b@[i as int]));
            return false;
        }
        i = i + 1;
    }
    true
}

/// The device option of each node, in order.
fn options_of(nodes: &Vec<PipeWireDeviceNode>) -> (r: Vec<DeviceOption>)
    ensures
        r@ == nodes@.map_values(|n: PipeWireDeviceNode| option_of(n)),
{
    let mut r: Vec<DeviceOption> = Vec::new();
    let mut i: usize = 0;
    while i < nodes.len()
        invariant
            i <= nodes@.len(),
            r@ == nodes@.take(i as int).map_values(|n: PipeWireDeviceNode| option_of(n)),
        decreases nodes@.len() - i,
    {
        r.push(nodes[i].to_option());
        i = i + 1;
        assert(r@ =~= nodes@.take(i as int).map_values(|n: PipeWireDeviceNode| option_of(n)));
    }
    assert(nodes@.take(i as int) =~= nodes@);
    r
}

/// The message of a virtual layout that was made only in part.
pub open spec fn incomplete_layout_message() -> Seq<char> {
    "virtual endpoints were created incompletely"@
}

/// The reports of virtual endpoints that could not be made: not ready, and why.
pub fn virtual_endpoints_failed(message: String) -> (events: Vec<BackendEvent>)
    ensures
        events@ == seq![BackendEvent::VirtualEndpointsReady { ready: false }, BackendEvent::BackendError { message }],
{
    let mut events: Vec<BackendEvent> = Vec::new();
    events.push(BackendEvent::VirtualEndpointsReady { ready: false });
    events.push(BackendEvent::BackendError { message });
    assert(events@ =~= seq![BackendEvent::VirtualEndpointsReady { ready: false }, BackendEvent::BackendError { message }]);
    events
}

impl PipeWireDiscoveryBackend {
    /// Takes the device nodes that a discovery found: they become the known
    /// devices and the options offered, bindings follow their nodes, routes to
    /// unbound hardware buses are dropped, and the backend counts as connected.
    /// Reports the connection and the devices when the options changed or it was
    /// not connected before.
    pub fn apply_discovered_devices(&mut self, input_nodes: Vec<PipeWireDeviceNode>, output_nodes: Vec<PipeWireDeviceNode>) -> (events: Vec<BackendEvent>)
        ensures
            final(self).known_input_nodes@ == input_nodes@,
            final(self).known_output_nodes@ == output_nodes@,
            final(self).known_input_devices@ == input_nodes@.map_values(|n: PipeWireDeviceNode| option_of(n)),
            final(self).known_output_devices@ == output_nodes@.map_values(|n: PipeWireDeviceNode| option_of(n)),
            final(self).bus_bindings@ == rebound(old(self).bus_bindings@, output_nodes@),
            final(self).active_routes@ == routes_kept(old(self).active_routes@, final(self).bus_bindings@),
            final(self).connected,
            final(self).virtual_endpoint_ids == old(self).virtual_endpoint_ids,
            final(self).virtual_bus_module_ids == old(self).virtual_bus_module_ids,
            ({
                let ins = input_nodes@.map_values(|n: PipeWireDeviceNode| option_of(n));
                let outs = output_nodes@.map_values(|n: PipeWireDeviceNode| option_of(n));
                let changed = !same_options(ins, old(self).known_input_devices@)
                    || !same_options(outs, old(self).known_output_devices@) || !old(self).connected;
                if changed {
                    &&& events@.len() == 2
                    &&& events@[0] == BackendEvent::ConnectionStateChanged { connected: true }
                    &&& events@[1] matches BackendEvent::DevicesUpdated { input_devices, output_devices }
                        && input_devices@ == ins && output_devices@ == outs
                } else {
                    events@.len() == 0
                }
            }),
    {
        let input_devices = options_of(&input_nodes);
        let output_devices = options_of(&output_nodes);
        let changed = !device_options_equal(input_devices.as_slice(), self.known_input_devices.as_slice())
            || !device_options_equal(output_devices.as_slice(), self.known_output_devices.as_slice())
            || !self.connected;
        self.known_input_nodes = input_nodes;
        self.known_input_devices = input_devices.clone();
        self.known_output_devices = output_devices.clone();
        self.known_output_nodes = output_nodes;
        self.reconcile_bus_bindings();
        self.reconcile_active_routes();
        self.connected = true;
        let mut events: Vec<BackendEvent> = Vec::new();
        if changed {
            events.push(BackendEvent::ConnectionStateChanged { connected: true });
            events.push(BackendEvent::DevicesUpdated { input_devices, output_devices });
        }
        events
    }

    /// Takes a failed discovery: the backend is no longer connected. Reports the
    /// lost connection, when it was connected, and the failure.
    pub fn discovery_failed(&mut self, message: String) -> (events: Vec<BackendEvent>)
        ensures
            !final(self).connected,
            final(self).known_input_nodes == old(self).known_input_nodes,
            final(self).known_output_nodes == old(self).known_output_nodes,
            final(self).known_input_devices == old(self).known_input_devices,
            final(self).known_output_devices == old(self).known_output_devices,
            final(self).bus_bindings == old(self).bus_bindings,
            final(self).active_routes == old(self).active_routes,
            final(self).virtual_endpoint_ids == old(self).virtual_endpoint_ids,
            final(self).virtual_bus_module_ids == old(self).virtual_bus_module_ids,
            events@ == (if old(self).connected {
                seq![BackendEvent::ConnectionStateChanged { connected: false }, BackendEvent::BackendError { message }]
            } else {
                seq![BackendEvent::BackendError { message }]
            }),
    {
        let mut events: Vec<BackendEvent> = Vec::new();
        if self.connected {
            events.push(BackendEvent::ConnectionStateChanged { connected: false });
        }
        self.connected = false;
        events.push(BackendEvent::BackendError { message });
        proof {
            if old(self).connected {
                assert(events@ =~= seq![BackendEvent::ConnectionStateChanged { connected: false }, BackendEvent::BackendError { message }]);
            } else {
                assert(events@ =~= seq![BackendEvent::BackendError { message }]);
            }
        }
        events
    }

    /// Takes the listing of the virtual nodes after they were made: their ids are
    /// remembered, and they are ready when the layout is complete. A failed
    /// listing leaves the ids as they were and reports why.
    pub fn record_virtual_endpoints(&mut self, listed: Result<Vec<VirtualEndpointNode>, String>) -> (events: Vec<BackendEvent>)
        ensures
            final(self).known_input_nodes == old(self).known_input_nodes,
            final(self).known_output_nodes == old(self).known_output_nodes,
            final(self).known_input_devices == old(self).known_input_devices,
            final(self).known_output_devices == old(self).known_output_devices,
            final(self).bus_bindings == old(self).bus_bindings,
            final(self).active_routes == old(self).active_routes,
            final(self).connected == old(self).connected,
            final(self).virtual_bus_module_ids == old(self).virtual_bus_module_ids,
            match listed {
                Ok(nodes) => {
                    &&& final(self).virtual_endpoint_ids@ == nodes@.map_values(|n: VirtualEndpointNode| n.id)
                    &&& if complete_layout(nodes@) {
                        events@ == seq![BackendEvent::VirtualEndpointsReady { ready: true }]
                    } else {
                        &&& events@.len() == 2
                        &&& events@[0] == BackendEvent::VirtualEndpointsReady { ready: false }
                        &&& is_error(events@[1], incomplete_layout_message())
                    }
                },
                Err(message) => {
                    &&& final(self).virtual_endpoint_ids == old(self).virtual_endpoint_ids
                    &&& events@ == seq![BackendEvent::VirtualEndpointsReady { ready: false }, BackendEvent::BackendError { message }]
                },
            },
    {
        match listed {
            Ok(nodes) => {
                let mut ids: Vec<u32> = Vec::new();
                let mut i: usize = 0;
                while i < nodes.len()
                    invariant
                        i <= nodes@.len(),
                        ids@ == nodes@.take(i as int).map_values(|n: VirtualEndpointNode| n.id),
                    decreases nodes@.len() - i,
                {
                    ids.push(nodes[i].id);
                    i = i + 1;
                    assert(ids@ =~= nodes@.take(i as int).map_values(|n: VirtualEndpointNode| n.id));
                }
                assert(nodes@.take(i as int) =~= nodes@);
                self.virtual_endpoint_ids = ids;
                let mut events: Vec<BackendEvent> = Vec::new();
                if has_complete_virtual_layout(nodes.as_slice()) {
                    events.push(BackendEvent::VirtualEndpointsReady { ready: true });
                    assert(events@ =~= seq![BackendEvent::VirtualEndpointsReady { ready: true }]);
                } else {
                    events.push(BackendEvent::VirtualEndpointsReady { ready: false });
                    events.push(BackendEvent::BackendError { message: "virtual endpoints were created incompletely".to_string() });
                    proof {
                        reveal_strlit("virtual endpoints were created incompletely");
                    }
                }
                events
            },
            Err(message) => virtual_endpoints_failed(message),
        }
    }
}


/// What setting a bus's device leads to: the binding's reports, and the session
/// with the bus's destination set that the graph is brought in line with, if
/// any, and whether the bus's volume and mute are to be set again too.
pub struct BusDevicePlan {
    pub events: Vec<BackendEvent>,
    pub session: Option<SessionState>,
    pub sync_runtime: bool,
}

/// The device name in the first report of bus `bus_index` bound.
fn resolved_binding_name(events: &Vec<BackendEvent>, bus_index: usize) -> (r: Option<String>)
    ensures
        events@.len() == 1 ==> match events@[0] {
            BackendEvent::BusBindingChanged { bus_index: b, device_name } => if b == bus_index {
                r == Some(device_name)
            } else {
                r is None
            },
            _ => r is None,
        },
{
    let mut i: usize = 0;
    while i < events.len()
        invariant
            i <= events@.len(),
            events@.len() == 1 && i == 1 ==> !(events@[0] matches BackendEvent::BusBindingChanged { bus_index: b, .. } && b == bus_index),
        decreases events@.len() - i,
    {
        match &events[i] {
            BackendEvent::BusBindingChanged { bus_index: b, device_name } => {
                if *b == bus_index {
                    return Some(device_name.clone());
                }
            },
            _ => {},
        }
        i = i + 1;
    }
    None
}

impl PipeWireDiscoveryBackend {
    /// Sets the device of bus `bus_index`: binds it (see
    /// [`PipeWireDiscoveryBackend::bind_hardware_bus`]) and, where the binding
    /// names a device, gives the session with the bus sending to that device,
    /// whose volume and routes are then brought in line; an unbound hardware bus
    /// keeps only its routes in line.
    pub fn plan_bus_device(&mut self, session: &SessionState, bus_index: usize, device_name: &str) -> (plan: BusDevicePlan)
        ensures
            final(self).known_output_nodes == old(self).known_output_nodes,
            final(self).known_input_nodes == old(self).known_input_nodes,
            final(self).known_input_devices == old(self).known_input_devices,
            final(self).known_output_devices == old(self).known_output_devices,
            final(self).connected == old(self).connected,
            final(self).virtual_endpoint_ids == old(self).virtual_endpoint_ids,
            final(self).virtual_bus_module_ids == old(self).virtual_bus_module_ids,
            final(self).active_routes == old(self).active_routes,
            plan.events@.len() == 1,
            ({
                let nodes = old(self).known_output_nodes@;
                let k = first_node_named(nodes, device_name@);
                if bus_index >= 3 {
                    &&& is_binding_changed(plan.events@[0], bus_index, device_name@)
                    &&& final(self).bus_bindings@ == old(self).bus_bindings@
                    &&& plan.session matches Some(t) && session@.bus_device_set(t@, bus_index as int, device_name@)
                    &&& plan.sync_runtime
                } else if device_name@.len() == 0 {
                    &&& is_binding_changed(plan.events@[0], bus_index, Seq::empty())
                    &&& final(self).bus_bindings@ == bindings_without(old(self).bus_bindings@, bus_index)
                    &&& plan.session matches Some(t) && session@.bus_device_set(t@, bus_index as int, Seq::empty())
                    &&& plan.sync_runtime
                } else if k < 0 {
                    &&& is_error(plan.events@[0], unavailable_device_message(bus_index, device_name@))
                    &&& final(self).bus_bindings@ == old(self).bus_bindings@
                    &&& plan.session is None
                    &&& !plan.sync_runtime
                } else {
                    &&& plan.events@[0] == BackendEvent::BusBindingChanged { bus_index, device_name: nodes[k].name }
                    &&& final(self).bus_bindings@ == bindings_after_bind(old(self).bus_bindings@, bus_index, nodes[k])
                    &&& plan.session matches Some(t) && session@.bus_device_set(t@, bus_index as int, nodes[k].name@)
                    &&& plan.sync_runtime
                }
            }),
    {
        let events = self.bind_hardware_bus(bus_index, device_name);
        match resolved_binding_name(&events, bus_index) {
            Some(name) => {
                let mut temp = session.clone();
                temp.set_bus_device(bus_index, name.as_str());
                BusDevicePlan { events, session: Some(temp), sync_runtime: true }
            },
            None => {
                if bus_index < 3 && device_name.is_empty() {
                    let mut temp = session.clone();
                    temp.set_bus_device(bus_index, "");
                    BusDevicePlan { events, session: Some(temp), sync_runtime: false }
                } else {
                    BusDevicePlan { events, session: None, sync_runtime: false }
                }
            },
        }
    }
}


/// A device node's fields: id, name, stable id, node name, class and kind.
pub type NodeFields = (u32, Seq<char>, Seq<char>, Seq<char>, Seq<char>, EndpointKind);

/// The fields of a device node.
pub open spec fn node_fields(n: PipeWireDeviceNode) -> NodeFields {
    (n.id, n.name@, n.stable_id@, n.node_name@, n.device_class@, n.kind)
}

/// The name by which device nodes are sorted.
pub open spec fn fields_name(f: NodeFields) -> Seq<char> {
    f.1
}

/// The key by which device nodes are sorted: their name.
pub open spec fn name_key() -> spec_fn(NodeFields) -> Seq<char> {
    |f: NodeFields| fields_name(f)
}

/// Property `key` of a pw-dump entry (under `info.props`).
pub open spec fn entry_prop(entry: JsonValue, key: Seq<char>) -> Option<Seq<char>> {
    json_prop_path(entry, seq!["info"@, "props"@, key])
}

/// A text, or the empty text.
pub open spec fn or_empty(t: Option<Seq<char>>) -> Seq<char> {
    match t {
        Some(x) => x,
        None => Seq::empty(),
    }
}

/// The device node that a pw-dump entry describes, if the mixer offers it: a
/// node object with an id, of class `Audio/Source` or `Audio/Sink`, made by a
/// device API or a factory, that is no monitor and none of the mixer's own. It
/// is named by its description, nickname or node name (else "Unknown Device"),
/// and identified by its device serial, else its node name, else its name.
pub open spec fn dump_entry_node(entry: JsonValue) -> Option<NodeFields> {
    let media_class = entry_prop(entry, "media.class"@);
    let node_name = or_empty(entry_prop(entry, "node.name"@));
    let id = u64_of(json_get(entry, "id"@));
    if json_prop(entry, "type"@) != Some("PipeWire:Interface:Node"@) {
        None
    } else if id is None {
        None
    } else if media_class != Some("Audio/Source"@) && media_class != Some("Audio/Sink"@) {
        None
    } else if entry_prop(entry, "device.api"@) is None && entry_prop(entry, "factory.name"@) is None {
        None
    } else if has_suffix(node_name, ".monitor"@) || has_infix(node_name, "monitor"@) {
        None
    } else if has_prefix(node_name, "voicewire."@) {
        None
    } else {
        let description = match entry_prop(entry, "node.description"@) {
            Some(d) => d,
            None => match entry_prop(entry, "node.nick"@) {
                Some(d) => d,
                None => match entry_prop(entry, "node.name"@) {
                    Some(d) => d,
                    None => "Unknown Device"@,
                },
            },
        };
        let stable_id = match entry_prop(entry, "device.serial"@) {
            Some(x) => x,
            None => match entry_prop(entry, "node.name"@) {
                Some(x) => x,
                None => description,
            },
        };
        let source = media_class == Some("Audio/Source"@);
        Some((
            id->0 as u32,
            description,
            stable_id,
            node_name,
            if source { "capture"@ } else { "playback"@ },
            if source { EndpointKind::HardwareInput } else { EndpointKind::HardwareOutput },
        ))
    }
}

/// The device nodes of kind `kind` among pw-dump entries, in order, each stable
/// id once (the first node with it stays).
pub open spec fn dump_nodes(entries: Seq<JsonValue>, kind: EndpointKind) -> Seq<NodeFields>
    decreases entries.len(),
{
    if entries.len() == 0 {
        Seq::empty()
    } else {
        let rest = dump_nodes(entries.drop_last(), kind);
        match dump_entry_node(entries.last()) {
            Some(f) => if f.5 == kind && !(exists|k: int| 0 <= k < rest.len() && (#[trigger] rest[k]).2 == f.2) {
                rest.push(f)
            } else {
                rest
            },
            None => rest,
        }
    }
}

/// Property `key` of a pw-dump entry (see [`entry_prop`]).
fn entry_prop_of<'a>(entry: &'a JsonValue, key: &str) -> (r: Option<&'a str>)
    ensures
        match r {
            Some(s) => entry_prop(*entry, key@) == Some(s@),
            None => entry_prop(*entry, key@) is None,
        },
{
    let path: [&str; 3] = ["info", "props", key];
    assert(path_view(path@) =~= seq!["info"@, "props"@, key@]);
    prop_path(entry, path.as_slice())
}

/// The device node that a pw-dump entry describes (see [`dump_entry_node`]).
fn dump_entry_node_of(entry: &JsonValue) -> (r: Option<PipeWireDeviceNode>)
    ensures
        match r {
            Some(n) => dump_entry_node(*entry) == Some(node_fields(n)),
            None => dump_entry_node(*entry) is None,
        },
{
    match prop(entry, "type") {
        Some(t) => {
            if !str_eq(t, "PipeWire:Interface:Node") {
                return None;
            }
        },
        None => {
            return None;
        },
    }
    let media_class = entry_prop_of(entry, "media.class");
    let device_api = entry_prop_of(entry, "device.api");
    let factory = entry_prop_of(entry, "factory.name");
    proof {
        reveal_strlit("");
    }
    let node_name: &str = match entry_prop_of(entry, "node.name") {
        Some(n) => n,
        None => "",
    };
    assert(node_name@ == or_empty(entry_prop(*entry, "node.name"@)));
    let id: u32 = match entry.get("id") {
        Some(v) => match v.as_u64() {
            Some(n) => n as u32,
            None => {
                return None;
            },
        },
        None => {
            return None;
        },
    };
    let source = match media_class {
        Some(c) => if str_eq(c, "Audio/Source") {
            true
        } else if str_eq(c, "Audio/Sink") {
            false
        } else {
            return None;
        },
        None => {
            return None;
        },
    };
    if device_api.is_none() && factory.is_none() {
        return None;
    }
    if str_ends_with(node_name, ".monitor") || str_contains(node_name, "monitor") {
        return None;
    }
    if str_starts_with(node_name, "voicewire.") {
        return None;
    }
    let description: &str = match entry_prop_of(entry, "node.description") {
        Some(d) => d,
        None => match entry_prop_of(entry, "node.nick") {
            Some(d) => d,
            None => match entry_prop_of(entry, "node.name") {
                Some(d) => d,
                None => "Unknown Device",
            },
        },
    };
    let stable_id: &str = match entry_prop_of(entry, "device.serial") {
        Some(x) => x,
        None => match entry_prop_of(entry, "node.name") {
            Some(x) => x,
            None => description,
        },
    };
    Some(PipeWireDeviceNode {
        id,
        name: description.to_string(),
        stable_id: stable_id.to_string(),
        node_name: node_name.to_string(),
        device_class: if source { "capture".to_string() } else { "playback".to_string() },
        kind: if source { EndpointKind::HardwareInput } else { EndpointKind::HardwareOutput },
    })
}

/// Adds a node to a list of nodes kept unique by stable id (see [`dump_nodes`]).
fn add_unique_node(list: &mut Vec<PipeWireDeviceNode>, item: PipeWireDeviceNode)
    ensures
        final(list)@.map_values(|n: PipeWireDeviceNode| node_fields(n)) == ({
            let rest = old(list)@.map_values(|n: PipeWireDeviceNode| node_fields(n));
            let f = node_fields(item);
            if exists|k: int| 0 <= k < rest.len() && (#[trigger] rest[k]).2 == f.2 {
                rest
            } else {
                rest.push(f)
            }
        }),
{
    let ghost rest = list@.map_values(|n: PipeWireDeviceNode| node_fields(n));
    let ghost f = node_fields(item);
    let ghost before = list@;
    proof {
        assert forall|k: int| 0 <= k < before.len() implies (#[trigger] before[k]).stable_id@ == rest[k].2 by {}
        if exists|k: int| 0 <= k < rest.len() && (#[trigger] rest[k]).2 == f.2 {
            let k = choose|k: int| 0 <= k < rest.len() && (#[trigger] rest[k]).2 == f.2;
            assert(before[k].stable_id@ == item.stable_id@);
        }
        if exists|k: int| 0 <= k < before.len() && (#[trigger] before[k]).stable_id@ == item.stable_id@ {
            let k = choose|k: int| 0 <= k < before.len() && (#[trigger] before[k]).stable_id@ == item.stable_id@;
            assert(rest[k].2 == f.2);
        }
    }
    push_unique_node(list, item);
    assert(list@.map_values(|n: PipeWireDeviceNode| node_fields(n)) =~= (if exists|k: int| 0 <= k < rest.len() && (#[trigger] rest[k]).2 == f.2 {
        rest
    } else {
        rest.push(f)
    }));
}

/// Sorts device nodes by name, keeping the order of nodes with equal names (see
/// [`sorted_by`]).
pub fn sort_nodes_by_name(v: Vec<PipeWireDeviceNode>) -> (r: Vec<PipeWireDeviceNode>)
    ensures
        r@.map_values(|n: PipeWireDeviceNode| node_fields(n)) == sorted_by(v@.map_values(|n: PipeWireDeviceNode| node_fields(n)), name_key()),
{
    let ghost fs = v@.map_values(|n: PipeWireDeviceNode| node_fields(n));
    let ghost key = name_key();
    let mut out: Vec<PipeWireDeviceNode> = Vec::new();
    let mut i: usize = 0;
    while i < v.len()
        invariant
            i <= v@.len(),
            fs == v@.map_values(|n: PipeWireDeviceNode| node_fields(n)),
            key == name_key(),
            out@.map_values(|n: PipeWireDeviceNode| node_fields(n)) == sorted_by(fs.take(i as int), key),
        decreases v@.len() - i,
    {
        assert(fs.take(i + 1).drop_last() =~= fs.take(i as int));
        assert(fs.take(i + 1).last() == node_fields(v@[i as int]));
        let x = v[i].clone();
        let ghost os = out@.map_values(|n: PipeWireDeviceNode| node_fields(n));
        let name = chars_of(x.name.as_str());
        let mut j: usize = out.len();
        let mut stop = false;
        while j > 0 && !stop
            invariant
                j <= out@.len(),
                os == out@.map_values(|n: PipeWireDeviceNode| node_fields(n)),
                key == name_key(),
                name@ == x.name@,
                forall|k: int| j <= k < out@.len() ==> seq_less(key(node_fields(x)), key(#[trigger] os[k])),
                stop ==> j > 0 && !seq_less(key(node_fields(x)), key(os[j - 1])),
            decreases j + (if stop { 0int } else { 1int }),
        {
            let other = chars_of(out[j - 1].name.as_str());
            assert(os[j - 1] == node_fields(out@[j - 1]));
            if !chars_less(name.as_slice(), other.as_slice()) {
                stop = true;
            } else {
                j = j - 1;
            }
        }
        proof {
            lemma_insert_by_at(os, node_fields(x), key, j as int);
        }
        out.insert(j, x);
        assert(out@.map_values(|n: PipeWireDeviceNode| node_fields(n)) =~= os.take(j as int).push(node_fields(x)) + os.skip(j as int));
        i = i + 1;
    }
    assert(fs.take(i as int) =~= fs);
    out
}

/// The hardware input and output nodes that a pw-dump lists, each sorted by
/// name (see [`dump_nodes`]); an error when the dump is not an array.
pub fn parse_dump_device_nodes(dump: &JsonValue) -> (r: Result<(Vec<PipeWireDeviceNode>, Vec<PipeWireDeviceNode>), String>)
    ensures
        match *dump {
            JsonValue::Array(items) => r matches Ok((ins, outs))
                && ins@.map_values(|n: PipeWireDeviceNode| node_fields(n))
                    == sorted_by(dump_nodes(items@, EndpointKind::HardwareInput), name_key())
                && outs@.map_values(|n: PipeWireDeviceNode| node_fields(n))
                    == sorted_by(dump_nodes(items@, EndpointKind::HardwareOutput), name_key()),
            _ => r matches Err(m) && m@ == "pw-dump output was not a json array"@,
        },
{
    let items = match dump.as_array() {
        Some(items) => items,
        None => {
            return Err("pw-dump output was not a json array".to_string());
        },
    };
    let mut inputs: Vec<PipeWireDeviceNode> = Vec::new();
    let mut outputs: Vec<PipeWireDeviceNode> = Vec::new();
    let mut i: usize = 0;
    while i < items.len()
        invariant
            i <= items@.len(),
            inputs@.map_values(|n: PipeWireDeviceNode| node_fields(n)) == dump_nodes(items@.take(i as int), EndpointKind::HardwareInput),
            outputs@.map_values(|n: PipeWireDeviceNode| node_fields(n)) == dump_nodes(items@.take(i as int), EndpointKind::HardwareOutput),
        decreases items@.len() - i,
    {
        assert(items@.take(i + 1).drop_last() =~= items@.take(i as int));
        assert(items@.take(i + 1).last() == items@[i as int]);
        match dump_entry_node_of(&items[i]) {
            Some(node) => {
                if node.kind == EndpointKind::HardwareInput {
                    add_unique_node(&mut inputs, node);
                } else {
                    add_unique_node(&mut outputs, node);
                }
            },
            None => {},
        }
        i = i + 1;
    }
    assert(items@.take(i as int) =~= items@);
    Ok((sort_nodes_by_name(inputs), sort_nodes_by_name(outputs)))
}


/// A listed virtual node's id, name and media class.
pub open spec fn virtual_node_fields(n: VirtualEndpointNode) -> (u32, Seq<char>, Seq<char>) {
    (n.id, n.name@, n.media_class@)
}

/// The mixer's own nodes that a pw-dump lists, in order, or the error of a node
/// without an id.
pub open spec fn virtual_nodes_of(entries: Seq<JsonValue>) -> Result<Seq<(u32, Seq<char>, Seq<char>)>, Seq<char>>
    decreases entries.len(),
{
    if entries.len() == 0 {
        Ok(Seq::empty())
    } else {
        match virtual_nodes_of(entries.drop_last()) {
            Err(m) => Err(m),
            Ok(rest) => {
                let e = entries.last();
                if json_prop(e, "type"@) != Some("PipeWire:Interface:Node"@) {
                    Ok(rest)
                } else {
                    match entry_prop(e, "node.name"@) {
                        Some(n) => if is_managed_name(n) {
                            match u64_of(json_get(e, "id"@)) {
                                Some(id) => Ok(rest.push((id as u32, n, or_empty(entry_prop(e, "media.class"@))))),
                                None => Err("virtual endpoint node missing id"@),
                            }
                        } else {
                            Ok(rest)
                        },
                        None => Ok(rest),
                    }
                }
            },
        }
    }
}

proof fn lemma_virtual_nodes_err(entries: Seq<JsonValue>, m: int)
    requires
        0 <= m <= entries.len(),
        virtual_nodes_of(entries.take(m)) is Err,
    ensures
        virtual_nodes_of(entries) == virtual_nodes_of(entries.take(m)),
    decreases entries.len(),
{
    if m == entries.len() {
        assert(entries.take(m) =~= entries);
    } else {
        assert(entries.drop_last().take(m) =~= entries.take(m));
        lemma_virtual_nodes_err(entries.drop_last(), m);
    }
}

/// The mixer's own nodes that a pw-dump lists (see [`virtual_nodes_of`]); an
/// error when the dump is not an array.
pub fn parse_virtual_endpoint_nodes(dump: &JsonValue) -> (r: Result<Vec<VirtualEndpointNode>, String>)
    ensures
        match *dump {
            JsonValue::Array(items) => match virtual_nodes_of(items@) {
                Ok(ns) => r matches Ok(v) && v@.map_values(|n: VirtualEndpointNode| virtual_node_fields(n)) == ns,
                Err(m) => r matches Err(e) && e@ == m,
            },
            _ => r matches Err(m) && m@ == "pw-dump output was not a json array"@,
        },
{
    let items = match dump.as_array() {
        Some(items) => items,
        None => {
            return Err("pw-dump output was not a json array".to_string());
        },
    };
    let mut nodes: Vec<VirtualEndpointNode> = Vec::new();
    let mut i: usize = 0;
    assert(items@.take(0) =~= Seq::<JsonValue>::empty());
    assert(nodes@.map_values(|n: VirtualEndpointNode| virtual_node_fields(n)) =~= Seq::empty());
    while i < items.len()
        invariant
            i <= items@.len(),
            *dump == JsonValue::Array(*items),
            virtual_nodes_of(items@.take(i as int)) is Ok,
            virtual_nodes_of(items@.take(i as int))->Ok_0 == nodes@.map_values(|n: VirtualEndpointNode| virtual_node_fields(n)),
        decreases items@.len() - i,
    {
        assert(items@.take(i + 1).drop_last() =~= items@.take(i as int));
        assert(items@.take(i + 1).last() == items@[i as int]);
        let entry = &items[i];
        let ghost prev = nodes@.map_values(|n: VirtualEndpointNode| virtual_node_fields(n));
        let is_node = match prop(entry, "type") {
            Some(t) => str_eq(t, "PipeWire:Interface:Node"),
            None => false,
        };
        if is_node {
            match entry_prop_of(entry, "node.name") {
                Some(name) => {
                    if is_managed_virtual_node(name) {
                        proof {
                            reveal_strlit("");
                        }
                        let media_class: &str = match entry_prop_of(entry, "media.class") {
                            Some(c) => c,
                            None => "",
                        };
                        let id: u32 = match entry.get("id") {
                            Some(v) => match v.as_u64() {
                                Some(n) => n as u32,
                                None => {
                                    proof {
                                        lemma_virtual_nodes_err(items@, i + 1);
                                    }
                                    return Err("virtual endpoint node missing id".to_string());
                                },
                            },
                            None => {
                                proof {
                                    lemma_virtual_nodes_err(items@, i + 1);
                                }
                                return Err("virtual endpoint node missing id".to_string());
                            },
                        };
                        nodes.push(VirtualEndpointNode { id, name: name.to_string(), media_class: media_class.to_string() });
                        assert(nodes@.map_values(|n: VirtualEndpointNode| virtual_node_fields(n)) =~= prev.push((id, name@, media_class@)));
                        assert(json_prop(*entry, "type"@) == Some("PipeWire:Interface:Node"@));
                        assert(entry_prop(*entry, "node.name"@) == Some(name@));
                        assert(is_managed_name(name@));
                        assert(media_class@ == or_empty(entry_prop(*entry, "media.class"@)));
                        assert(u64_of(json_get(*entry, "id"@)) is Some);
                        assert(id == u64_of(json_get(*entry, "id"@))->0 as u32);
                    }
                },
                None => {},
            }
        }
        proof {
            let e = items@[i as int];
            assert(virtual_nodes_of(items@.take(i + 1)) == (if json_prop(e, "type"@) != Some("PipeWire:Interface:Node"@) {
                Ok(prev)
            } else {
                match entry_prop(e, "node.name"@) {
                    Some(n) => if is_managed_name(n) {
                        match u64_of(json_get(e, "id"@)) {
                            Some(id) => Ok(prev.push((id as u32, n, or_empty(entry_prop(e, "media.class"@))))),
                            None => Err("virtual endpoint node missing id"@),
                        }
                    } else {
                        Ok(prev)
                    },
                    None => Ok(prev),
                }
            }));
        }
        i = i + 1;
        assert(nodes@.map_values(|n: VirtualEndpointNode| virtual_node_fields(n)) =~= virtual_nodes_of(items@.take(i as int))->Ok_0);
    }
    assert(items@.take(i as int) =~= items@);
    Ok(nodes)
}

/// The sinks that a `pactl --format=json list sinks` lists: each sink's name and
/// index, in order, where it has both.
pub open spec fn sink_indexes_of(entries: Seq<JsonValue>) -> Seq<(Seq<char>, u32)>
    decreases entries.len(),
{
    if entries.len() == 0 {
        Seq::empty()
    } else {
        let rest = sink_indexes_of(entries.drop_last());
        let e = entries.last();
        match (u64_of(json_get(e, "index"@)), json_prop(e, "name"@)) {
            (Some(index), Some(name)) => rest.push((name, index as u32)),
            _ => rest,
        }
    }
}

/// The name and index of each listed sink (see [`sink_indexes_of`]); an error
/// when the listing is not an array.
pub fn parse_sink_indexes(sinks: &JsonValue) -> (r: Result<Vec<(String, u32)>, String>)
    ensures
        match *sinks {
            JsonValue::Array(items) => r matches Ok(v)
                && v@.map_values(|p: (String, u32)| (p.0@, p.1)) == sink_indexes_of(items@),
            _ => r matches Err(m) && m@ == "Pulse sink output was not a json array"@,
        },
{
    let items = match sinks.as_array() {
        Some(items) => items,
        None => {
            return Err("Pulse sink output was not a json array".to_string());
        },
    };
    let mut out: Vec<(String, u32)> = Vec::new();
    let mut i: usize = 0;
    while i < items.len()
        invariant
            i <= items@.len(),
            out@.map_values(|p: (String, u32)| (p.0@, p.1)) == sink_indexes_of(items@.take(i as int)),
        decreases items@.len() - i,
    {
        assert(items@.take(i + 1).drop_last() =~= items@.take(i as int));
        assert(items@.take(i + 1).last() == items@[i as int]);
        let entry = &items[i];
        let index = match entry.get("index") {
            Some(v) => v.as_u64(),
            None => None,
        };
        match index {
            Some(index) => match prop(entry, "name") {
                Some(name) => {
                    out.push((name.to_string(), index as u32));
                },
                None => {},
            },
            None => {},
        }
        i = i + 1;
        assert(out@.map_values(|p: (String, u32)| (p.0@, p.1)) =~= sink_indexes_of(items@.take(i as int)));
    }
    assert(items@.take(i as int) =~= items@);
    Ok(out)
}

/// Index of the first listed sink with index `index`, or -1.
pub open spec fn first_sink_with(sinks: Seq<(String, u32)>, index: u32) -> int
    decreases sinks.len(),
{
    if sinks.len() == 0 {
        -1
    } else {
        let f = first_sink_with(sinks.drop_last(), index);
        if f >= 0 {
            f
        } else if sinks.last().1 == index {
            sinks.len() - 1
        } else {
            -1
        }
    }
}

proof fn lemma_first_sink_with(sinks: Seq<(String, u32)>, index: u32, m: int)
    requires
        0 <= m <= sinks.len(),
        first_sink_with(sinks.take(m), index) >= 0,
    ensures
        first_sink_with(sinks, index) == first_sink_with(sinks.take(m), index),
    decreases sinks.len(),
{
    if m == sinks.len() {
        assert(sinks.take(m) =~= sinks);
    } else {
        assert(sinks.drop_last().take(m) =~= sinks.take(m));
        lemma_first_sink_with(sinks.drop_last(), index, m);
    }
}

/// The name of the first listed sink with index `index`, or the empty name.
pub open spec fn sink_name_of(sinks: Seq<(String, u32)>, index: u32) -> Seq<char> {
    let k = first_sink_with(sinks, index);
    if k >= 0 { sinks[k].0@ } else { Seq::empty() }
}

/// The name of the first listed sink with index `index` (see [`sink_name_of`]).
fn find_sink_name(sinks: &[(String, u32)], index: u32) -> (r: String)
    ensures
        r@ == sink_name_of(sinks@, index),
{
    let mut j: usize = 0;
    while j < sinks.len()
        invariant
            j <= sinks@.len(),
            first_sink_with(sinks@.take(j as int), index) == -1,
        decreases sinks@.len() - j,
    {
        assert(sinks@.take(j + 1).drop_last() =~= sinks@.take(j as int));
        if sinks[j].1 == index {
            proof {
                lemma_first_sink_with(sinks@, index, j + 1);
            }
            return sinks[j].0.clone();
        }
        j = j + 1;
    }
    assert(sinks@.take(j as int) =~= sinks@);
    String::new()
}

/// An application route's fields: id, name, detail, target, badge letters,
/// badge colour, level and mute.
pub type RouteFields = (u32, Seq<char>, Seq<char>, Seq<char>, Seq<char>, Seq<char>, i32, bool);

/// The fields of an application route.
pub open spec fn route_fields(r: AppRouteState) -> RouteFields {
    (r.id, r.name@, r.detail@, r.target@, r.icon_text@, r.icon_color@, r.level, r.muted)
}

/// The key by which application routes are sorted: the name in lower case.
pub open spec fn route_sort_key(f: RouteFields) -> Seq<char> {
    unicode_lowercase(f.1)
}

/// The key by which application routes are sorted (see [`route_sort_key`]).
pub open spec fn route_key() -> spec_fn(RouteFields) -> Seq<char> {
    |f: RouteFields| route_sort_key(f)
}

/// String member `key` of a stream's properties, or the empty text.
pub open spec fn stream_prop(props: Option<JsonValue>, key: Seq<char>) -> Seq<char> {
    match props {
        Some(p) => or_empty(json_prop(p, key)),
        None => Seq::empty(),
    }
}

/// The tools of the audio stack whose streams are not offered as applications.
pub open spec fn is_tool_binary(binary: Seq<char>) -> bool {
    binary == "voicewire"@ || binary == "pw-cli"@ || binary == "pactl"@ || binary == "parec"@
}

/// The application route that a listed sink input makes, at level `level`: one
/// with an index, whose binary is none of the audio tools; named, described and
/// badged from its properties, routed to the label of its sink.
pub open spec fn sink_input_route(entry: JsonValue, sinks: Seq<(String, u32)>, level: i32) -> Option<RouteFields> {
    match u64_of(json_get(entry, "index"@)) {
        None => None,
        Some(index) => {
            let id = index as u32;
            let sink = match u64_of(json_get(entry, "sink"@)) {
                Some(si) => sink_name_of(sinks, si as u32),
                None => Seq::empty(),
            };
            let props = json_get(entry, "properties"@);
            let muted = match bool_of(json_get(entry, "mute"@)) {
                Some(b) => b,
                None => false,
            };
            let app = stream_prop(props, "application.name"@);
            let media = stream_prop(props, "media.name"@);
            let binary = stream_prop(props, "application.process.binary"@);
            if is_tool_binary(binary) {
                None
            } else {
                let name = display_name(app, media, binary, id);
                let base = badge_base(name, app, binary);
                Some((
                    id,
                    name,
                    display_detail(app, media, binary, name),
                    route_label_of_sink(sink),
                    badge_letters(base),
                    badge_palette()[(badge_hash(crate::text::utf8_of(base)) % 6) as int],
                    level,
                    muted,
                ))
            }
        },
    }
}

/// The application routes that the listed sink inputs make, in order, entry `i`
/// at level `levels[i]`.
pub open spec fn sink_input_routes(entries: Seq<JsonValue>, sinks: Seq<(String, u32)>, levels: Seq<i32>) -> Seq<RouteFields>
    decreases entries.len(),
{
    if entries.len() == 0 {
        Seq::empty()
    } else {
        let rest = sink_input_routes(entries.drop_last(), sinks, levels);
        match sink_input_route(entries.last(), sinks, levels[entries.len() - 1]) {
            Some(f) => rest.push(f),
            None => rest,
        }
    }
}

/// String member `key` of a stream's properties (see [`stream_prop`]).
fn stream_prop_of<'a>(props: Option<&'a JsonValue>, key: &str) -> (r: &'a str)
    ensures
        r@ == stream_prop(match props { Some(p) => Some(*p), None => None }, key@),
{
    proof {
        reveal_strlit("");
    }
    match props {
        Some(p) => match prop(p, key) {
            Some(v) => v,
            None => "",
        },
        None => "",
    }
}

/// The application route that a listed sink input makes (see [`sink_input_route`]).
fn sink_input_route_of(entry: &JsonValue, sinks: &[(String, u32)], level: i32) -> (r: Option<AppRouteState>)
    ensures
        match r {
            Some(a) => sink_input_route(*entry, sinks@, level) == Some(route_fields(a)),
            None => sink_input_route(*entry, sinks@, level) is None,
        },
{
    let index = match entry.get("index") {
        Some(v) => match v.as_u64() {
            Some(n) => n,
            None => {
                return None;
            },
        },
        None => {
            return None;
        },
    };
    let id = index as u32;
    let sink_index = match entry.get("sink") {
        Some(v) => v.as_u64(),
        None => None,
    };
    let sink: String = match sink_index {
        Some(si) => find_sink_name(sinks, si as u32),
        None => String::new(),
    };
    let props = entry.get("properties");
    let muted = match entry.get("mute") {
        Some(v) => match v.as_bool() {
            Some(b) => b,
            None => false,
        },
        None => false,
    };
    let app = stream_prop_of(props, "application.name");
    let media = stream_prop_of(props, "media.name");
    let binary = stream_prop_of(props, "application.process.binary");
    if str_eq(binary, "voicewire") || str_eq(binary, "pw-cli") || str_eq(binary, "pactl") || str_eq(binary, "parec") {
        return None;
    }
    let name = display_app_name(app, media, binary, id);
    let detail = display_app_detail(app, media, binary, name.as_str());
    let (icon_text, icon_color) = app_badge(name.as_str(), app, binary);
    Some(AppRouteState {
        id,
        name,
        detail,
        target: sink_name_to_route_label(sink.as_str()).to_string(),
        icon_text,
        icon_color,
        level,
        muted,
    })
}

/// Sorts application routes by their names in lower case, keeping the order of
/// equal ones (see [`sorted_by`]).
pub fn sort_routes_by_name(v: Vec<AppRouteState>) -> (r: Vec<AppRouteState>)
    ensures
        r@.map_values(|a: AppRouteState| route_fields(a)) == sorted_by(v@.map_values(|a: AppRouteState| route_fields(a)), route_key()),
{
    let ghost fs = v@.map_values(|a: AppRouteState| route_fields(a));
    let ghost key = route_key();
    let mut out: Vec<AppRouteState> = Vec::new();
    let mut i: usize = 0;
    while i < v.len()
        invariant
            i <= v@.len(),
            fs == v@.map_values(|a: AppRouteState| route_fields(a)),
            key == route_key(),
            out@.map_values(|a: AppRouteState| route_fields(a)) == sorted_by(fs.take(i as int), key),
        decreases v@.len() - i,
    {
        assert(fs.take(i + 1).drop_last() =~= fs.take(i as int));
        assert(fs.take(i + 1).last() == route_fields(v@[i as int]));
        let x = v[i].clone();
        let ghost os = out@.map_values(|a: AppRouteState| route_fields(a));
        let lower = to_lowercase(x.name.as_str());
        let name = chars_of(lower.as_str());
        let mut j: usize = out.len();
        let mut stop = false;
        while j > 0 && !stop
            invariant
                j <= out@.len(),
                os == out@.map_values(|a: AppRouteState| route_fields(a)),
                key == route_key(),
                name@ == unicode_lowercase(x.name@),
                forall|k: int| j <= k < out@.len() ==> seq_less(key(route_fields(x)), key(#[trigger] os[k])),
                stop ==> j > 0 && !seq_less(key(route_fields(x)), key(os[j - 1])),
            decreases j + (if stop { 0int } else { 1int }),
        {
            let other_lower = to_lowercase(out[j - 1].name.as_str());
            let other = chars_of(other_lower.as_str());
            assert(os[j - 1] == route_fields(out@[j - 1]));
            if !chars_less(name.as_slice(), other.as_slice()) {
                stop = true;
            } else {
                j = j - 1;
            }
        }
        proof {
            lemma_insert_by_at(os, route_fields(x), key, j as int);
        }
        out.insert(j, x);
        assert(out@.map_values(|a: AppRouteState| route_fields(a)) =~= os.take(j as int).push(route_fields(x)) + os.skip(j as int));
        i = i + 1;
    }
    assert(fs.take(i as int) =~= fs);
    out
}

/// The application routes that a `pactl --format=json list sink-inputs` lists
/// (see [`sink_input_routes`]), sorted by name in lower case; `sinks` names the
/// sinks by index and `levels` gives each entry's level. An error when the
/// listing is not an array.
pub fn parse_app_routes(inputs: &JsonValue, sinks: &[(String, u32)], levels: &[i32]) -> (r: Result<Vec<AppRouteState>, String>)
    requires
        inputs matches JsonValue::Array(items) ==> levels@.len() == items@.len(),
    ensures
        match *inputs {
            JsonValue::Array(items) => r matches Ok(v) && v@.map_values(|a: AppRouteState| route_fields(a))
                == sorted_by(sink_input_routes(items@, sinks@, levels@), route_key()),
            _ => r matches Err(m) && m@ == "Pulse sink-input output was not a json array"@,
        },
{
    let items = match inputs.as_array() {
        Some(items) => items,
        None => {
            return Err("Pulse sink-input output was not a json array".to_string());
        },
    };
    let mut routes: Vec<AppRouteState> = Vec::new();
    let mut i: usize = 0;
    while i < items.len()
        invariant
            i <= items@.len(),
            levels@.len() == items@.len(),
            routes@.map_values(|a: AppRouteState| route_fields(a)) == sink_input_routes(items@.take(i as int), sinks@, levels@),
        decreases items@.len() - i,
    {
        assert(items@.take(i + 1).drop_last() =~= items@.take(i as int));
        assert(items@.take(i + 1).last() == items@[i as int]);
        match sink_input_route_of(&items[i], sinks, levels[i]) {
            Some(a) => {
                routes.push(a);
            },
            None => {},
        }
        i = i + 1;
        assert(routes@.map_values(|a: AppRouteState| route_fields(a)) =~= sink_input_routes(items@.take(i as int), sinks@, levels@));
    }
    assert(items@.take(i as int) =~= items@);
    Ok(sort_routes_by_name(routes))
}

/// Index of the first listed sink input with index `id`, or -1.
pub open spec fn first_input_with(entries: Seq<JsonValue>, id: u32) -> int
    decreases entries.len(),
{
    if entries.len() == 0 {
        -1
    } else {
        let f = first_input_with(entries.drop_last(), id);
        if f >= 0 {
            f
        } else if u64_of(json_get(entries.last(), "index"@)) == Some(id as u64) {
            entries.len() - 1
        } else {
            -1
        }
    }
}

proof fn lemma_first_input_with(entries: Seq<JsonValue>, id: u32, m: int)
    requires
        0 <= m <= entries.len(),
        first_input_with(entries.take(m), id) >= 0,
    ensures
        first_input_with(entries, id) == first_input_with(entries.take(m), id),
    decreases entries.len(),
{
    if m == entries.len() {
        assert(entries.take(m) =~= entries);
    } else {
        assert(entries.drop_last().take(m) =~= entries.take(m));
        lemma_first_input_with(entries.drop_last(), id, m);
    }
}

/// Whether sink input `app_id` is muted: the mute of the first listed sink input
/// with that index, or why it cannot be told.
pub open spec fn sink_input_muted_of(entries: Seq<JsonValue>, app_id: u32) -> Result<bool, Seq<char>> {
    let k = first_input_with(entries, app_id);
    if k >= 0 {
        match bool_of(json_get(entries[k], "mute"@)) {
            Some(b) => Ok(b),
            None => Err("could not find sink input "@ + decimal(app_id as nat)),
        }
    } else {
        Err("could not find sink input "@ + decimal(app_id as nat))
    }
}

/// Whether sink input `app_id` is muted (see [`sink_input_muted_of`]); an error
/// when the listing is not an array.
pub fn sink_input_muted(inputs: &JsonValue, app_id: u32) -> (r: Result<bool, String>)
    ensures
        match *inputs {
            JsonValue::Array(items) => match sink_input_muted_of(items@, app_id) {
                Ok(b) => r == Ok::<bool, String>(b),
                Err(m) => r matches Err(e) && e@ == m,
            },
            _ => r matches Err(m) && m@ == "Pulse sink-input output was not a json array"@,
        },
{
    let items = match inputs.as_array() {
        Some(items) => items,
        None => {
            return Err("Pulse sink-input output was not a json array".to_string());
        },
    };
    let mut j: usize = 0;
    while j < items.len()
        invariant
            j <= items@.len(),
            *inputs == JsonValue::Array(*items),
            first_input_with(items@.take(j as int), app_id) == -1,
        decreases items@.len() - j,
    {
        assert(items@.take(j + 1).drop_last() =~= items@.take(j as int));
        assert(items@.take(j + 1).last() == items@[j as int]);
        let index = match items[j].get("index") {
            Some(v) => v.as_u64(),
            None => None,
        };
        let found = match index {
            Some(n) => n == app_id as u64,
            None => false,
        };
        if found {
            proof {
                lemma_first_input_with(items@, app_id, j + 1);
            }
            let muted = match items[j].get("mute") {
                Some(v) => v.as_bool(),
                None => None,
            };
            return match muted {
                Some(b) => Ok(b),
                None => Err(concat("could not find sink input ", decimal_string(app_id as u64).as_str())),
            };
        }
        j = j + 1;
    }
    assert(items@.take(j as int) =~= items@);
    Err(concat("could not find sink input ", decimal_string(app_id as u64).as_str()))
}


/// The properties with which `pw-cli create-node adapter` makes a virtual input.
pub open spec fn node_properties(node_name: Seq<char>, description: Seq<char>, media_class: Seq<char>) -> Seq<char> {
    "{ factory.name = support.null-audio-sink node.name = \""@ + node_name + "\" node.description = \""@ + description
        + "\" media.class = \""@ + media_class + "\" object.linger = true audio.position = [ FL FR ] }"@
}

/// The properties of a virtual input's node (see [`node_properties`]).
pub fn virtual_endpoint_properties(spec: &VirtualEndpointSpec) -> (r: String)
    ensures
        r@ == node_properties(spec.node_name@, spec.description@, spec.media_class@),
{
    let a = concat("{ factory.name = support.null-audio-sink node.name = \"", spec.node_name);
    let b = concat(a.as_str(), "\" node.description = \"");
    let c = concat(b.as_str(), spec.description);
    let d = concat(c.as_str(), "\" media.class = \"");
    let e = concat(d.as_str(), spec.media_class);
    let r = concat(e.as_str(), "\" object.linger = true audio.position = [ FL FR ] }");
    assert(r@ =~= node_properties(spec.node_name@, spec.description@, spec.media_class@));
    r
}

/// The description properties of a module's device, all three set to `d`.
pub open spec fn described(d: Seq<char>) -> Seq<char> {
    "device.description="@ + d + " media.name="@ + d + " node.description="@ + d
}

/// The `pactl` arguments that load a virtual bus's sink.
pub open spec fn null_sink_args(sink_name: Seq<char>, sink_description: Seq<char>) -> Seq<Seq<char>> {
    seq!["load-module"@, "module-null-sink"@, "sink_name="@ + sink_name, "sink_properties="@ + described(sink_description)]
}

/// The `pactl` arguments that load a virtual bus's source, fed by its sink's monitor.
pub open spec fn remap_source_args(sink_name: Seq<char>, source_name: Seq<char>, source_description: Seq<char>) -> Seq<Seq<char>> {
    seq![
        "load-module"@,
        "module-remap-source"@,
        "master="@ + sink_name + ".monitor"@,
        "source_name="@ + source_name,
        "source_properties="@ + described(source_description),
    ]
}

/// The description properties (see [`described`]).
fn described_text(d: &str) -> (r: String)
    ensures
        r@ == described(d@),
{
    let a = concat("device.description=", d);
    let b = concat(a.as_str(), " media.name=");
    let c = concat(b.as_str(), d);
    let e = concat(c.as_str(), " node.description=");
    let r = concat(e.as_str(), d);
    assert(r@ =~= described(d@));
    r
}

/// The arguments that load a virtual bus's sink (see [`null_sink_args`]).
pub fn null_sink_module_args(spec: &VirtualBusEndpointSpec) -> (r: Vec<String>)
    ensures
        r@.map_values(|a: String| a@) == null_sink_args(spec.sink_node_name@, spec.sink_description@),
{
    let mut r: Vec<String> = Vec::new();
    r.push("load-module".to_string());
    r.push("module-null-sink".to_string());
    r.push(concat("sink_name=", spec.sink_node_name));
    let props = described_text(spec.sink_description);
    r.push(concat("sink_properties=", props.as_str()));
    assert(r@.map_values(|a: String| a@) =~= null_sink_args(spec.sink_node_name@, spec.sink_description@));
    r
}

/// The arguments that load a virtual bus's source (see [`remap_source_args`]).
pub fn remap_source_module_args(spec: &VirtualBusEndpointSpec) -> (r: Vec<String>)
    ensures
        r@.map_values(|a: String| a@) == remap_source_args(spec.sink_node_name@, spec.source_node_name@, spec.source_description@),
{
    let mut r: Vec<String> = Vec::new();
    r.push("load-module".to_string());
    r.push("module-remap-source".to_string());
    let master = concat("master=", spec.sink_node_name);
    r.push(concat(master.as_str(), ".monitor"));
    r.push(concat("source_name=", spec.source_node_name));
    let props = described_text(spec.source_description);
    r.push(concat("source_properties=", props.as_str()));
    assert(r@.map_values(|a: String| a@) =~= remap_source_args(spec.sink_node_name@, spec.source_node_name@, spec.source_description@));
    r
}

/// The `pactl` command that sets the volume of a node of kind `kind` (a sink or
/// a source); none for another kind.
pub fn pulse_volume_command(kind: &str) -> (r: Option<&'static str>)
    ensures
        kind@ == "sink"@ ==> (r matches Some(c) && c@ == "set-sink-volume"@),
        kind@ == "source"@ ==> (r matches Some(c) && c@ == "set-source-volume"@),
        kind@ != "sink"@ && kind@ != "source"@ ==> r is None,
{
    proof {
        reveal_strlit("sink");
        reveal_strlit("source");
        assert("sink"@.len() != "source"@.len());
    }
    if str_eq(kind, "sink") {
        Some("set-sink-volume")
    } else if str_eq(kind, "source") {
        Some("set-source-volume")
    } else {
        None
    }
}

/// The `pactl` command that mutes a node of kind `kind`; none for another kind.
pub fn pulse_mute_command(kind: &str) -> (r: Option<&'static str>)
    ensures
        kind@ == "sink"@ ==> (r matches Some(c) && c@ == "set-sink-mute"@),
        kind@ == "source"@ ==> (r matches Some(c) && c@ == "set-source-mute"@),
        kind@ != "sink"@ && kind@ != "source"@ ==> r is None,
{
    proof {
        reveal_strlit("sink");
        reveal_strlit("source");
        assert("sink"@.len() != "source"@.len());
    }
    if str_eq(kind, "sink") {
        Some("set-sink-mute")
    } else if str_eq(kind, "source") {
        Some("set-source-mute")
    } else {
        None
    }
}

/// Whether a running meter tap of strip `tap.0` on node `tap.1` is still wanted:
/// that strip's meter still reads that node.
pub open spec fn tap_wanted(desired: Seq<Option<Seq<char>>>, tap: (usize, Seq<char>)) -> bool {
    tap.0 < desired.len() && desired[tap.0 as int] == Some(tap.1)
}

/// The taps to start for the first `n` strips, in order: each strip whose meter
/// reads a node that no kept tap reads for it.
pub open spec fn taps_to_start(taps: Seq<(usize, Seq<char>)>, desired: Seq<Option<Seq<char>>>, n: int) -> Seq<(usize, Seq<char>)>
    decreases n,
{
    if n <= 0 {
        Seq::empty()
    } else {
        let rest = taps_to_start(taps, desired, n - 1);
        match desired[n - 1] {
            Some(t) => if exists|k: int| 0 <= k < taps.len() && tap_wanted(desired, #[trigger] taps[k]) && taps[k] == ((n - 1) as usize, t) {
                rest
            } else {
                rest.push(((n - 1) as usize, t))
            },
            None => rest,
        }
    }
}

/// Which running meter taps to keep and which to start.
pub struct MeterTapPlan {
    pub keep: Vec<bool>,
    pub start: Vec<(usize, String)>,
}

/// The meter taps to keep and to start so that each strip's meter reads the node
/// in `desired` (see [`tap_wanted`] and [`taps_to_start`]).
pub fn plan_meter_taps(taps: &[(usize, String)], desired: &[Option<String>]) -> (p: MeterTapPlan)
    ensures
        ({
            let tv = taps@.map_values(|t: (usize, String)| (t.0, t.1@));
            let dv = desired@.map_values(|d: Option<String>| match d { Some(s) => Some(s@), None => None });
            &&& p.keep@.len() == taps@.len()
            &&& forall|k: int| 0 <= k < taps@.len() ==> p.keep@[k] == tap_wanted(dv, #[trigger] tv[k])
            &&& p.start@.map_values(|t: (usize, String)| (t.0, t.1@)) == taps_to_start(tv, dv, desired@.len() as int)
        }),
{
    let ghost tv = taps@.map_values(|t: (usize, String)| (t.0, t.1@));
    let ghost dv = desired@.map_values(|d: Option<String>| match d { Some(s) => Some(s@), None => None });
    let mut keep: Vec<bool> = Vec::new();
    let mut k: usize = 0;
    while k < taps.len()
        invariant
            k <= taps@.len(),
            tv == taps@.map_values(|t: (usize, String)| (t.0, t.1@)),
            dv == desired@.map_values(|d: Option<String>| match d { Some(s) => Some(s@), None => None }),
            keep@.len() == k,
            forall|j: int| 0 <= j < k ==> keep@[j] == tap_wanted(dv, #[trigger] tv[j]),
        decreases taps@.len() - k,
    {
        let (si, ref target) = taps[k];
        let wanted = si < desired.len() && match &desired[si] {
            Some(t) => str_eq(t.as_str(), target.as_str()),
            None => false,
        };
        assert(tv[k as int] == (si, target@));
        proof {
            if si < desired@.len() {
                assert(dv[si as int] == (match desired@[si as int] { Some(s) => Some(s@), None => None }));
            }
        }
        keep.push(wanted);
        k = k + 1;
    }
    let mut start: Vec<(usize, String)> = Vec::new();
    let mut i: usize = 0;
    while i < desired.len()
        invariant
            i <= desired@.len(),
            tv == taps@.map_values(|t: (usize, String)| (t.0, t.1@)),
            dv == desired@.map_values(|d: Option<String>| match d { Some(s) => Some(s@), None => None }),
            keep@.len() == taps@.len(),
            forall|j: int| 0 <= j < taps@.len() ==> keep@[j] == tap_wanted(dv, #[trigger] tv[j]),
            start@.map_values(|t: (usize, String)| (t.0, t.1@)) == taps_to_start(tv, dv, i as int),
        decreases desired@.len() - i,
    {
        let ghost prev = start@.map_values(|t: (usize, String)| (t.0, t.1@));
        assert(dv[i as int] == (match desired@[i as int] { Some(s) => Some(s@), None => None }));
        match &desired[i] {
            Some(t) => {
                let mut running = false;
                let mut k: usize = 0;
                while k < taps.len()
                    invariant
                        k <= taps@.len(),
                        i < desired@.len(),
                        tv == taps@.map_values(|t: (usize, String)| (t.0, t.1@)),
                        keep@.len() == taps@.len(),
                        forall|j: int| 0 <= j < taps@.len() ==> keep@[j] == tap_wanted(dv, #[trigger] tv[j]),
                        running == exists|j: int| 0 <= j < k && tap_wanted(dv, #[trigger] tv[j]) && tv[j] == (i, t@),
                    decreases taps@.len() - k,
                {
                    assert(tv[k as int] == (taps@[k as int].0, taps@[k as int].1@));
                    if keep[k] && taps[k].0 == i && str_eq(taps[k].1.as_str(), t.as_str()) {
                        running = true;
                    }
                    k = k + 1;
                }
                if !running {
                    start.push((i, t.clone()));
                    assert(start@.map_values(|t: (usize, String)| (t.0, t.1@)) =~= prev.push((i, t@)));
                }
            },
            None => {},
        }
        i = i + 1;
    }
    MeterTapPlan { keep, start }
}

impl PipeWireDiscoveryBackend {
    /// The node that each strip's meter reads (see [`meter_target`]), in strip order.
    pub fn meter_targets(&self, session: &SessionState) -> (r: Vec<Option<String>>)
        ensures
            r@.len() == session@.strips.len(),
            forall|i: int| 0 <= i < session@.strips.len() ==> (match #[trigger] r@[i] {
                Some(s) => meter_target(self.known_input_nodes@, session@, i) == Some(s@),
                None => meter_target(self.known_input_nodes@, session@, i) is None,
            }),
    {
        let mut r: Vec<Option<String>> = Vec::new();
        let mut i: usize = 0;
        while i < session.strips.len()
            invariant
                i <= session@.strips.len(),
                r@.len() == i,
                forall|j: int| 0 <= j < i ==> (match #[trigger] r@[j] {
                    Some(s) => meter_target(self.known_input_nodes@, session@, j) == Some(s@),
                    None => meter_target(self.known_input_nodes@, session@, j) is None,
                }),
            decreases session@.strips.len() - i,
        {
            r.push(self.resolve_strip_meter_target(i, session));
            i = i + 1;
        }
        r
    }
}


/// Each bus has at most one binding.
pub open spec fn one_binding_per_bus(b: Seq<BusBinding>) -> bool {
    forall|i: int, j: int| 0 <= i < j < b.len() ==> (#[trigger] b[i]).bus_index != (#[trigger] b[j]).bus_index
}

proof fn lemma_without_members(b: Seq<BusBinding>, bus_index: usize)
    ensures
        forall|i: int| 0 <= i < bindings_without(b, bus_index).len() ==> {
            &&& (#[trigger] bindings_without(b, bus_index)[i]).bus_index != bus_index
            &&& b.contains(bindings_without(b, bus_index)[i])
        },
{
    let pred = |x: BusBinding| x.bus_index != bus_index;
    let w = bindings_without(b, bus_index);
    assert forall|i: int| 0 <= i < w.len() implies (#[trigger] w[i]).bus_index != bus_index && b.contains(w[i]) by {
        b.lemma_filter_pred(pred, i);
        assert(w.contains(w[i]));
        b.lemma_filter_contains_rev(pred, w[i]);
    }
}

proof fn lemma_without_one_per_bus(b: Seq<BusBinding>, bus_index: usize)
    requires
        one_binding_per_bus(b),
    ensures
        one_binding_per_bus(bindings_without(b, bus_index)),
    decreases b.len(),
{
    reveal(Seq::filter);
    if b.len() > 0 {
        let d = b.drop_last();
        assert(one_binding_per_bus(d)) by {
            assert forall|i: int, j: int| 0 <= i < j < d.len() implies (#[trigger] d[i]).bus_index != (#[trigger] d[j]).bus_index by {
                assert(d[i] == b[i] && d[j] == b[j]);
            }
        }
        lemma_without_one_per_bus(d, bus_index);
        lemma_without_members(d, bus_index);
        let w = bindings_without(d, bus_index);
        if b.last().bus_index != bus_index {
            assert(bindings_without(b, bus_index) == w.push(b.last()));
            assert forall|i: int| 0 <= i < w.len() implies (#[trigger] w[i]).bus_index != b.last().bus_index by {
                assert(d.contains(w[i]));
                let j = choose|j: int| 0 <= j < d.len() && d[j] == w[i];
                assert(b[j] == d[j]);
                assert(b[j].bus_index != b[b.len() - 1].bus_index);
            }
        }
    }
}

proof fn lemma_rebound_members(b: Seq<BusBinding>, nodes: Seq<PipeWireDeviceNode>)
    ensures
        rebound(b, nodes).len() <= b.len(),
        forall|i: int| 0 <= i < rebound(b, nodes).len() ==> exists|j: int| 0 <= j < b.len()
            && (#[trigger] rebound(b, nodes)[i]).bus_index == b[j].bus_index,
    decreases b.len(),
{
    if b.len() > 0 {
        let d = b.drop_last();
        lemma_rebound_members(d, nodes);
        let r = rebound(b, nodes);
        let rd = rebound(d, nodes);
        assert forall|i: int| 0 <= i < r.len() implies exists|j: int| 0 <= j < b.len()
            && (#[trigger] r[i]).bus_index == b[j].bus_index by {
            if i < rd.len() {
                assert(r[i] == rd[i]);
                let j = choose|j: int| 0 <= j < d.len() && rd[i].bus_index == d[j].bus_index;
                assert(b[j] == d[j]);
            } else {
                assert(r[i].bus_index == b[b.len() - 1].bus_index);
            }
        }
    }
}

/// Every change of the bindings keeps each bus with at most one binding: binding
/// a hardware bus, unbinding it, and moving the bindings after a device refresh.
pub proof fn law_bindings_one_per_bus(b: Seq<BusBinding>, bus_index: usize, n: PipeWireDeviceNode, nodes: Seq<PipeWireDeviceNode>)
    requires
        one_binding_per_bus(b),
    ensures
        one_binding_per_bus(bindings_without(b, bus_index)),
        one_binding_per_bus(bindings_after_bind(b, bus_index, n)),
        one_binding_per_bus(rebound(b, nodes)),
{
    lemma_without_one_per_bus(b, bus_index);
    lemma_without_members(b, bus_index);
    let w = bindings_without(b, bus_index);
    let x = binding_to(bus_index, n);
    assert(one_binding_per_bus(w.push(x))) by {
        assert forall|i: int, j: int| 0 <= i < j < w.push(x).len() implies (#[trigger] w.push(x)[i]).bus_index != (#[trigger] w.push(x)[j]).bus_index by {
            if j == w.len() {
                assert(w.push(x)[i] == w[i]);
            } else {
                assert(w.push(x)[i] == w[i] && w.push(x)[j] == w[j]);
            }
        }
    }
    lemma_rebound_one_per_bus(b, nodes);
}

proof fn lemma_rebound_one_per_bus(b: Seq<BusBinding>, nodes: Seq<PipeWireDeviceNode>)
    requires
        one_binding_per_bus(b),
    ensures
        one_binding_per_bus(rebound(b, nodes)),
    decreases b.len(),
{
    if b.len() > 0 {
        let d = b.drop_last();
        assert(one_binding_per_bus(d)) by {
            assert forall|i: int, j: int| 0 <= i < j < d.len() implies (#[trigger] d[i]).bus_index != (#[trigger] d[j]).bus_index by {
                assert(d[i] == b[i] && d[j] == b[j]);
            }
        }
        lemma_rebound_one_per_bus(d, nodes);
        lemma_rebound_members(d, nodes);
        let rd = rebound(d, nodes);
        let r = rebound(b, nodes);
        if r.len() > rd.len() {
            assert forall|i: int, j: int| 0 <= i < j < r.len() implies (#[trigger] r[i]).bus_index != (#[trigger] r[j]).bus_index by {
                if j == rd.len() {
                    assert(r[i] == rd[i]);
                    let k = choose|k: int| 0 <= k < d.len() && rd[i].bus_index == d[k].bus_index;
                    assert(b[k] == d[k]);
                    assert(b[k].bus_index != b[b.len() - 1].bus_index);
                } else {
                    assert(r[i] == rd[i] && r[j] == rd[j]);
                }
            }
        }
    }
}

/// Binding a bus to a device twice is the same as binding it once.
pub proof fn law_bind_idempotent(b: Seq<BusBinding>, bus_index: usize, n: PipeWireDeviceNode)
    ensures
        bindings_after_bind(bindings_after_bind(b, bus_index, n), bus_index, n) == bindings_after_bind(b, bus_index, n),
{
    if !bound_to(b, bus_index, n.id) {
        let w = bindings_without(b, bus_index);
        let after = w.push(binding_to(bus_index, n));
        assert(after[w.len() as int].bus_index == bus_index && after[w.len() as int].node_id == n.id);
        assert(bound_to(after, bus_index, n.id));
    }
}

/// Binding a hardware bus to a device that it is not bound to makes it send to
/// that device's node; unbinding it leaves it sending nowhere.
pub proof fn law_bind_sets_target(b: Seq<BusBinding>, bus_index: usize, n: PipeWireDeviceNode)
    requires
        bus_index < 3,
    ensures
        !bound_to(b, bus_index, n.id) ==> bus_target(bindings_after_bind(b, bus_index, n), bus_index) == Some(n.node_name@),
        bus_target(bindings_without(b, bus_index), bus_index) is None,
{
    let w = bindings_without(b, bus_index);
    lemma_without_members(b, bus_index);
    assert(!has_binding(w, bus_index)) by {
        if has_binding(w, bus_index) {
            let k = choose|k: int| 0 <= k < w.len() && (#[trigger] w[k]).bus_index == bus_index;
            assert(w[k].bus_index != bus_index);
        }
    }
    lemma_first_binding_of_none(w, bus_index);
    let after = w.push(binding_to(bus_index, n));
    assert(after.drop_last() =~= w);
}


/// The class that a device of kind `kind` carries.
pub open spec fn class_of(kind: EndpointKind) -> Seq<char> {
    if kind == EndpointKind::HardwareInput { "capture"@ } else { "playback"@ }
}

/// A device node that the mixer may offer as one of kind `kind`.
pub open spec fn offered_node(f: NodeFields, kind: EndpointKind) -> bool {
    &&& f.5 == kind
    &&& f.4 == class_of(kind)
    &&& !has_prefix(f.3, "voicewire."@)
    &&& !has_infix(f.3, "monitor"@)
}

proof fn lemma_dump_nodes_offered(entries: Seq<JsonValue>, kind: EndpointKind)
    ensures
        forall|i: int| 0 <= i < dump_nodes(entries, kind).len() ==> offered_node(#[trigger] dump_nodes(entries, kind)[i], kind),
        forall|i: int, j: int| 0 <= i < j < dump_nodes(entries, kind).len()
            ==> (#[trigger] dump_nodes(entries, kind)[i]).2 != (#[trigger] dump_nodes(entries, kind)[j]).2,
    decreases entries.len(),
{
    if entries.len() > 0 {
        lemma_dump_nodes_offered(entries.drop_last(), kind);
        let rest = dump_nodes(entries.drop_last(), kind);
        let all = dump_nodes(entries, kind);
        if all.len() > rest.len() {
            let f = all[all.len() - 1];
            assert(all == rest.push(f));
            assert forall|i: int| 0 <= i < all.len() implies offered_node(#[trigger] all[i], kind) by {
                if i < rest.len() {
                    assert(all[i] == rest[i]);
                }
            }
            assert forall|i: int, j: int| 0 <= i < j < all.len() implies (#[trigger] all[i]).2 != (#[trigger] all[j]).2 by {
                if j < rest.len() {
                    assert(all[i] == rest[i] && all[j] == rest[j]);
                } else {
                    assert(all[i] == rest[i]);
                }
            }
        } else {
            assert(all == rest);
        }
    }
}

/// The devices of one kind that a pw-dump offers come in name order; they are the
/// offered nodes of the dump, each once by stable id; and each is of that kind,
/// with its class, neither a monitor nor one of the mixer's own nodes.
pub proof fn law_dump_devices(entries: Seq<JsonValue>, kind: EndpointKind)
    requires
        kind == EndpointKind::HardwareInput || kind == EndpointKind::HardwareOutput,
    ensures
        ascending_by(sorted_by(dump_nodes(entries, kind), name_key()), name_key()),
        sorted_by(dump_nodes(entries, kind), name_key()).to_multiset() == dump_nodes(entries, kind).to_multiset(),
        forall|i: int| 0 <= i < sorted_by(dump_nodes(entries, kind), name_key()).len()
            ==> offered_node(#[trigger] sorted_by(dump_nodes(entries, kind), name_key())[i], kind),
        forall|i: int, j: int| 0 <= i < j < dump_nodes(entries, kind).len()
            ==> (#[trigger] dump_nodes(entries, kind)[i]).2 != (#[trigger] dump_nodes(entries, kind)[j]).2,
{
    broadcast use vstd::seq_lib::to_multiset_contains;
    let d = dump_nodes(entries, kind);
    let s = sorted_by(d, name_key());
    lemma_sorted_by_ascending(d, name_key());
    lemma_sorted_by_multiset(d, name_key());
    lemma_dump_nodes_offered(entries, kind);
    assert forall|i: int| 0 <= i < s.len() implies offered_node(#[trigger] s[i], kind) by {
        assert(s.contains(s[i]));
        assert(s.to_multiset().count(s[i]) > 0);
        assert(d.contains(s[i]));
        let k = choose|k: int| 0 <= k < d.len() && d[k] == s[i];
    }
}

/// The application routes that a sink-input listing gives come in order of their
/// names in lower case, and they are the routes that the listing makes, each as
/// often as it makes it.
pub proof fn law_app_routes_sorted(entries: Seq<JsonValue>, sinks: Seq<(String, u32)>, levels: Seq<i32>)
    ensures
        ascending_by(sorted_by(sink_input_routes(entries, sinks, levels), route_key()), route_key()),
        sorted_by(sink_input_routes(entries, sinks, levels), route_key()).to_multiset()
            == sink_input_routes(entries, sinks, levels).to_multiset(),
{
    lemma_sorted_by_ascending(sink_input_routes(entries, sinks, levels), route_key());
    lemma_sorted_by_multiset(sink_input_routes(entries, sinks, levels), route_key());
}


/// When a command has the devices discovered again first.
#[derive(Debug, PartialEq, Eq, Structural)]
pub enum DeviceRefresh {
    /// Always.
    Now,
    /// When the last discovery is older than a second.
    IfStale,
    /// Not at all.
    Never,
}

/// When `command` has the devices discovered again: starting and setting a
/// strip's or bus's device always do, a meter refresh does when the last
/// discovery is stale, the others do not.
pub open spec fn refresh_of(command: BackendCommand) -> DeviceRefresh {
    match command {
        BackendCommand::Start | BackendCommand::SetStripDevice { .. } | BackendCommand::SetBusDevice { .. } => DeviceRefresh::Now,
        BackendCommand::RefreshMeters => DeviceRefresh::IfStale,
        _ => DeviceRefresh::Never,
    }
}

/// When `command` has the devices discovered again (see [`refresh_of`]).
pub fn device_refresh_for(command: &BackendCommand) -> (r: DeviceRefresh)
    ensures
        r == refresh_of(*command),
{
    match command {
        BackendCommand::Start | BackendCommand::SetStripDevice { .. } | BackendCommand::SetBusDevice { .. } => DeviceRefresh::Now,
        BackendCommand::RefreshMeters => DeviceRefresh::IfStale,
        _ => DeviceRefresh::Never,
    }
}

/// Whether, after `command`, the bindings, volumes and routes are all brought in
/// line again: when its device discovery reported new devices, unless the
/// command starts or stops the backend (which does so on its own).
pub fn resync_after_devices(command: &BackendCommand, events: &Vec<BackendEvent>) -> (r: bool)
    ensures
        r == ((exists|i: int| 0 <= i < events@.len() && (#[trigger] events@[i]) is DevicesUpdated)
            && !(*command is Start) && !(*command is Shutdown)),
{
    let mut changed = false;
    let mut i: usize = 0;
    while i < events.len()
        invariant
            i <= events@.len(),
            changed == exists|j: int| 0 <= j < i && (#[trigger] events@[j]) is DevicesUpdated,
        decreases events@.len() - i,
    {
        if let BackendEvent::DevicesUpdated { .. } = &events[i] {
            changed = true;
        }
        i = i + 1;
    }
    let special = match command {
        BackendCommand::Start | BackendCommand::Shutdown => true,
        _ => false,
    };
    changed && !special
}


/// One step of the PipeWire backend's work on a command, in the order it is done.
#[derive(Debug)]
pub enum HandleStep {
    /// Discover the devices (see [`PipeWireDiscoveryBackend::apply_discovered_devices`]).
    RefreshDevices,
    /// Discover the devices when the last discovery is older than a second.
    RefreshDevicesIfStale,
    /// Report the connection, when the backend is connected.
    ReportConnected,
    /// Make the virtual inputs and buses anew.
    EnsureVirtualEndpoints,
    /// Bind the session's hardware buses (see [`PipeWireDiscoveryBackend::ensure_session_bus_bindings`]).
    EnsureSessionBindings,
    /// Set the volume and mute of every strip's and bus's nodes.
    SyncAllRuntime,
    /// Bring every route's links in line.
    SyncAllRoutes,
    /// Report the application routes that the audio server lists.
    RefreshAppRoutes,
    /// Report the meters of the session.
    Meter,
    /// Remove every link made for a route.
    ClearAllRoutes,
    /// Stop every meter tap.
    StopMeterTaps,
    /// Remove the virtual inputs and buses.
    DestroyVirtualEndpoints,
    /// Report an event.
    Report(BackendEvent),
    /// Bring the graph in line with a gain preview (see [`crate::mixing::preview_change`]).
    ApplyPreview,
    /// Report a mixing change, bring the graph in line with it and report the
    /// meters (see [`crate::mixing::mix_change`]).
    ApplyMix,
    /// Bind a bus to a device and bring its volume and routes in line (see
    /// [`PipeWireDiscoveryBackend::plan_bus_device`]).
    SetBusDevice,
    /// Move an application stream to the sink of a route target, reporting a failure.
    MoveAppStream,
    /// Set an application stream's volume, reporting a failure.
    SetAppStreamVolume,
    /// Mute or unmute an application stream, reporting a failure.
    ToggleAppStreamMute,
    /// Bind the buses, set every volume and bring every route in line again, when
    /// the discovery reported new devices.
    ResyncIfDevicesChanged,
}

/// The steps of the PipeWire backend's work on `command`, in order: a discovery
/// first where the command calls for one (see [`device_refresh_for`]), then the
/// command's own work, then a resynchronisation when the discovery found new
/// devices (see [`resync_after_devices`]).
pub open spec fn steps_for(command: BackendCommand) -> Seq<HandleStep> {
    match command {
        BackendCommand::Start => seq![
            HandleStep::RefreshDevices,
            HandleStep::ReportConnected,
            HandleStep::EnsureVirtualEndpoints,
            HandleStep::EnsureSessionBindings,
            HandleStep::SyncAllRuntime,
            HandleStep::SyncAllRoutes,
            HandleStep::RefreshAppRoutes,
            HandleStep::Meter,
        ],
        BackendCommand::Shutdown => seq![
            HandleStep::ClearAllRoutes,
            HandleStep::StopMeterTaps,
            HandleStep::DestroyVirtualEndpoints,
            HandleStep::Report(BackendEvent::ConnectionStateChanged { connected: false }),
            HandleStep::Report(BackendEvent::VirtualEndpointsReady { ready: false }),
        ],
        BackendCommand::PreviewStripGain { .. } | BackendCommand::PreviewBusGain { .. } => seq![HandleStep::ApplyPreview],
        BackendCommand::PreviewAppLevel { .. } => Seq::empty(),
        BackendCommand::RefreshMeters => seq![
            HandleStep::RefreshDevicesIfStale,
            HandleStep::Meter,
            HandleStep::ResyncIfDevicesChanged,
        ],
        BackendCommand::RefreshAppRoutes => seq![HandleStep::RefreshAppRoutes],
        BackendCommand::SetStripDevice { .. } => seq![
            HandleStep::RefreshDevices,
            HandleStep::ApplyMix,
            HandleStep::ResyncIfDevicesChanged,
        ],
        BackendCommand::SetBusDevice { .. } => seq![
            HandleStep::RefreshDevices,
            HandleStep::SetBusDevice,
            HandleStep::ResyncIfDevicesChanged,
        ],
        BackendCommand::SetAppRoute { .. } => seq![HandleStep::MoveAppStream, HandleStep::RefreshAppRoutes],
        BackendCommand::SetAppLevel { .. } => seq![HandleStep::SetAppStreamVolume, HandleStep::RefreshAppRoutes],
        BackendCommand::ToggleAppMuted { .. } => seq![HandleStep::ToggleAppStreamMute, HandleStep::RefreshAppRoutes],
        _ => seq![HandleStep::ApplyMix],
    }
}

/// The steps of the PipeWire backend's work on `command` (see [`steps_for`]).
pub fn handle_steps(command: &BackendCommand) -> (r: Vec<HandleStep>)
    ensures
        r@ == steps_for(*command),
{
    let mut r: Vec<HandleStep> = Vec::new();
    match command {
        BackendCommand::Start => {
            r.push(HandleStep::RefreshDevices);
            r.push(HandleStep::ReportConnected);
            r.push(HandleStep::EnsureVirtualEndpoints);
            r.push(HandleStep::EnsureSessionBindings);
            r.push(HandleStep::SyncAllRuntime);
            r.push(HandleStep::SyncAllRoutes);
            r.push(HandleStep::RefreshAppRoutes);
            r.push(HandleStep::Meter);
        },
        BackendCommand::Shutdown => {
            r.push(HandleStep::ClearAllRoutes);
            r.push(HandleStep::StopMeterTaps);
            r.push(HandleStep::DestroyVirtualEndpoints);
            r.push(HandleStep::Report(BackendEvent::ConnectionStateChanged { connected: false }));
            r.push(HandleStep::Report(BackendEvent::VirtualEndpointsReady { ready: false }));
        },
        BackendCommand::PreviewStripGain { .. } | BackendCommand::PreviewBusGain { .. } => {
            r.push(HandleStep::ApplyPreview);
        },
        BackendCommand::PreviewAppLevel { .. } => {},
        BackendCommand::RefreshMeters => {
            r.push(HandleStep::RefreshDevicesIfStale);
            r.push(HandleStep::Meter);
            r.push(HandleStep::ResyncIfDevicesChanged);
        },
        BackendCommand::RefreshAppRoutes => {
            r.push(HandleStep::RefreshAppRoutes);
        },
        BackendCommand::SetStripDevice { .. } => {
            r.push(HandleStep::RefreshDevices);
            r.push(HandleStep::ApplyMix);
            r.push(HandleStep::ResyncIfDevicesChanged);
        },
        BackendCommand::SetBusDevice { .. } => {
            r.push(HandleStep::RefreshDevices);
            r.push(HandleStep::SetBusDevice);
            r.push(HandleStep::ResyncIfDevicesChanged);
        },
        BackendCommand::SetAppRoute { .. } => {
            r.push(HandleStep::MoveAppStream);
            r.push(HandleStep::RefreshAppRoutes);
        },
        BackendCommand::SetAppLevel { .. } => {
            r.push(HandleStep::SetAppStreamVolume);
            r.push(HandleStep::RefreshAppRoutes);
        },
        BackendCommand::ToggleAppMuted { .. } => {
            r.push(HandleStep::ToggleAppStreamMute);
            r.push(HandleStep::RefreshAppRoutes);
        },
        _ => {
            r.push(HandleStep::ApplyMix);
        },
    }
    assert(r@ =~= steps_for(*command));
    r
}

/// A command's work begins with a discovery of the devices exactly when it calls
/// for one, and ends with a resynchronisation exactly when it calls for one and
/// neither starts nor stops the backend.
pub proof fn law_steps_follow_refresh(command: BackendCommand)
    ensures
        (steps_for(command).len() > 0 && steps_for(command)[0] is RefreshDevices) <==> refresh_of(command) == DeviceRefresh::Now,
        (steps_for(command).len() > 0 && steps_for(command)[0] is RefreshDevicesIfStale) <==> refresh_of(command) == DeviceRefresh::IfStale,
        (steps_for(command).len() > 0 && steps_for(command).last() is ResyncIfDevicesChanged)
            <==> (refresh_of(command) != DeviceRefresh::Never && !(command is Start) && !(command is Shutdown)),
{
}

/// After the bindings change, every route kept to a hardware bus goes to a bus
/// that is bound, and no route to a virtual bus is dropped.
pub proof fn law_routes_follow_bindings(routes: Seq<ActiveRoute>, bindings: Seq<BusBinding>)
    ensures
        forall|i: int| 0 <= i < routes_kept(routes, bindings).len() ==> {
            let r = #[trigger] routes_kept(routes, bindings)[i];
            r.bus_index >= 3 || has_binding(bindings, r.bus_index)
        },
        forall|i: int| 0 <= i < routes.len() && (#[trigger] routes[i]).bus_index >= 3
            ==> routes_kept(routes, bindings).contains(routes[i]),
{
    let pred = |r: ActiveRoute| r.bus_index >= 3 || has_binding(bindings, r.bus_index);
    assert forall|i: int| 0 <= i < routes_kept(routes, bindings).len() implies {
        let r = #[trigger] routes_kept(routes, bindings)[i];
        r.bus_index >= 3 || has_binding(bindings, r.bus_index)
    } by {
        routes.lemma_filter_pred(pred, i);
    }
    assert forall|i: int| 0 <= i < routes.len() && (#[trigger] routes[i]).bus_index >= 3
        implies routes_kept(routes, bindings).contains(routes[i]) by {
        routes.lemma_filter_contains(pred, i);
    }
}

impl Default for PipeWireDiscoveryBackend {
    /// A backend that knows nothing yet and is not connected.
    fn default() -> (r: PipeWireDiscoveryBackend)
        ensures
            r.known_input_nodes@.len() == 0,
            r.known_input_devices@.len() == 0,
            r.known_output_devices@.len() == 0,
            r.known_output_nodes@.len() == 0,
            !r.connected,
            r.virtual_endpoint_ids@.len() == 0,
            r.virtual_bus_module_ids@.len() == 0,
            r.bus_bindings@.len() == 0,
            r.active_routes@.len() == 0,
    {
        PipeWireDiscoveryBackend::new()
    }
}


/// The name of the port that line `j` of a `pw-link -I -l` listing is listed
/// under: that of the nearest port header line above it (empty above the first).
pub open spec fn header_above(ls: Seq<Seq<char>>, j: int) -> Seq<char>
    decreases j,
{
    if j <= 0 || j > ls.len() {
        Seq::empty()
    } else {
        match port_header(ls[j - 1]) {
            Some((_, name)) => name,
            None => header_above(ls, j - 1),
        }
    }
}

/// The id of the link on line `j`, when that line is a link from `source` to
/// `dest`: listed under `source` and going out to `dest`, or listed under `dest`
/// and coming in from `source`.
pub open spec fn link_from_to(ls: Seq<Seq<char>>, j: int, source: Seq<char>, dest: Seq<char>) -> Option<u32> {
    if port_header(ls[j]) is None {
        match link_line(ls[j]) {
            Some((id, LinkDirection::Output, other)) => if header_above(ls, j) == source && other == dest {
                Some(id)
            } else {
                None
            },
            Some((id, LinkDirection::Input, other)) => if header_above(ls, j) == dest && other == source {
                Some(id)
            } else {
                None
            },
            None => None,
        }
    } else {
        None
    }
}

proof fn lemma_header_above_prefix(ls: Seq<Seq<char>>, j: int)
    requires
        ls.len() > 0,
        j <= ls.len() - 1,
    ensures
        header_above(ls, j) == header_above(ls.drop_last(), j),
    decreases j,
{
    if j > 0 {
        lemma_header_above_prefix(ls, j - 1);
    }
}

proof fn lemma_link_scan_joins(ls: Seq<Seq<char>>, source: Seq<char>, dest: Seq<char>)
    ensures
        link_scan(ls, source, dest).0 == header_above(ls, ls.len() as int),
        forall|k: int| #![trigger link_scan(ls, source, dest).1[k]] 0 <= k < link_scan(ls, source, dest).1.len() ==> exists|j: int|
            0 <= j < ls.len() && #[trigger] link_from_to(ls, j, source, dest) == Some(link_scan(ls, source, dest).1[k]),
        forall|j: int| 0 <= j < ls.len() && #[trigger] link_from_to(ls, j, source, dest) is Some ==>
            link_scan(ls, source, dest).1.contains(link_from_to(ls, j, source, dest)->0),
    decreases ls.len(),
{
    if ls.len() > 0 {
        let n = ls.len() - 1;
        let prev = ls.drop_last();
        lemma_link_scan_joins(prev, source, dest);
        lemma_header_above_prefix(ls, n);
        assert forall|j: int| 0 <= j < n implies link_from_to(ls, j, source, dest) == link_from_to(prev, j, source, dest) by {
            lemma_header_above_prefix(ls, j);
            assert(ls[j] == prev[j]);
        }
        let ids = link_scan(prev, source, dest).1;
        let r = link_scan(ls, source, dest).1;
        assert(ls.last() == ls[n]);
        assert(r == ids || r == ids.push(link_from_to(ls, n, source, dest)->0));
        if r == ids {
            assert(link_from_to(ls, n, source, dest) is None);
        } else {
            assert(link_from_to(ls, n, source, dest) is Some);
        }
        assert forall|k: int| #![trigger r[k]] 0 <= k < r.len() implies exists|j: int|
            0 <= j < ls.len() && #[trigger] link_from_to(ls, j, source, dest) == Some(r[k]) by {
            if k < ids.len() {
                let j = choose|j: int| 0 <= j < prev.len() && #[trigger] link_from_to(prev, j, source, dest) == Some(ids[k]);
                assert(link_from_to(ls, j, source, dest) == Some(r[k]));
            } else {
                assert(link_from_to(ls, n, source, dest) == Some(r[k]));
            }
        }
        assert forall|j: int| 0 <= j < ls.len() && #[trigger] link_from_to(ls, j, source, dest) is Some implies
            r.contains(link_from_to(ls, j, source, dest)->0) by {
            if j < n {
                assert(link_from_to(prev, j, source, dest) is Some);
                let k = choose|k: int| 0 <= k < ids.len() && ids[k] == link_from_to(prev, j, source, dest)->0;
                assert(r[k] == ids[k]);
            } else {
                assert(r[r.len() - 1] == link_from_to(ls, n, source, dest)->0);
            }
        }
    }
}

/// The links that a route's removal finds in a `pw-link -I -l` listing are the
/// links from `source` to `dest`, and all of them: each id found is that of a
/// link listed under `source` going out to `dest` or listed under `dest` coming
/// in from `source`, and each such link is found. A link into `dest` from another
/// port, or out of `source` to another port, is never found.
pub proof fn law_link_ids_join_source_to_dest(listing: Seq<char>, source: Seq<char>, dest: Seq<char>)
    ensures
        forall|k: int| #![trigger link_scan(lines(listing), source, dest).1[k]] 0 <= k < link_scan(lines(listing), source, dest).1.len() ==> exists|j: int|
            0 <= j < lines(listing).len()
                && #[trigger] link_from_to(lines(listing), j, source, dest) == Some(link_scan(lines(listing), source, dest).1[k]),
        forall|j: int| 0 <= j < lines(listing).len() && #[trigger] link_from_to(lines(listing), j, source, dest) is Some ==>
            link_scan(lines(listing), source, dest).1.contains(link_from_to(lines(listing), j, source, dest)->0),
{
    lemma_link_scan_joins(lines(listing), source, dest);
}


/// The sink names and route labels of the three virtual inputs, spelled out.
proof fn lemma_virtual_names()
    ensures
        "voicewire.in1"@ + ".monitor"@ == "voicewire.in1.monitor"@,
        "voicewire.in2"@ + ".monitor"@ == "voicewire.in2.monitor"@,
        "voicewire.in3"@ + ".monitor"@ == "voicewire.in3.monitor"@,
        "voicewire.in1"@ != "voicewire.in2"@,
        "voicewire.in1"@ != "voicewire.in3"@,
        "voicewire.in2"@ != "voicewire.in3"@,
        "VAIO"@ != "AUX"@,
        "VAIO"@ != "SYS"@,
        "AUX"@ != "SYS"@,
        "VAIO"@ != ""@,
        "AUX"@ != ""@,
        "SYS"@ != ""@,
{
    reveal_strlit("voicewire.in1");
    reveal_strlit("voicewire.in2");
    reveal_strlit("voicewire.in3");
    reveal_strlit(".monitor");
    reveal_strlit("voicewire.in1.monitor");
    reveal_strlit("voicewire.in2.monitor");
    reveal_strlit("voicewire.in3.monitor");
    reveal_strlit("VAIO");
    reveal_strlit("AUX");
    reveal_strlit("SYS");
    reveal_strlit("");
    assert("voicewire.in1"@ + ".monitor"@ =~= "voicewire.in1.monitor"@);
    assert("voicewire.in2"@ + ".monitor"@ =~= "voicewire.in2.monitor"@);
    assert("voicewire.in3"@ + ".monitor"@ =~= "voicewire.in3.monitor"@);
    assert("voicewire.in1"@[12] != "voicewire.in2"@[12]);
    assert("voicewire.in1"@[12] != "voicewire.in3"@[12]);
    assert("voicewire.in2"@[12] != "voicewire.in3"@[12]);
    assert("VAIO"@.len() != "AUX"@.len());
    assert("VAIO"@.len() != "SYS"@.len());
    assert("AUX"@[0] != "SYS"@[0]);
}

/// A strip's routes take their audio from the node whose volume it sets and whose
/// level it meters: a hardware input reads from its device's source node, which
/// is also its volume target and meter; a virtual input reads from its sink,
/// whose volume it sets and whose monitor it meters, and that sink's route label
/// is the one that feeds applications into this very strip. A strip has a route
/// source exactly when it has a volume target and a meter.
pub proof fn law_route_source_is_metered_node(inputs: Seq<PipeWireDeviceNode>, s: SessionView, i: int)
    requires
        0 <= i < s.strips.len(),
    ensures
        (route_source_of(inputs, s, i) is Ok) <==> volume_targets(inputs, s, i).len() > 0,
        (route_source_of(inputs, s, i) is Ok) <==> (meter_target(inputs, s, i) is Some),
        route_source_of(inputs, s, i) matches Ok(v) ==> {
            &&& s.strips[i].endpoint_kind == EndpointKind::HardwareInput ==> {
                &&& volume_targets(inputs, s, i) == seq![("source"@, v)]
                &&& meter_target(inputs, s, i) == Some(v)
            }
            &&& s.strips[i].endpoint_kind == EndpointKind::VirtualInput ==> {
                &&& volume_targets(inputs, s, i) == seq![("sink"@, v), ("source"@, v + ".monitor"@)]
                &&& meter_target(inputs, s, i) == Some(v + ".monitor"@)
                &&& sink_of_route_label(route_label_of_sink(v)) == Some(v)
                &&& crate::model::target_strip(route_label_of_sink(v)) == i
            }
        },
{
    lemma_virtual_names();
}

/// Moving an application to a route label and reading the label back agree, and
/// the label feeds the virtual strip that reads from that very sink: for each of
/// the labels `VAIO`, `AUX` and `SYS`, its sink is labelled with it again, it
/// feeds one of the three virtual input strips, and that strip's routes take
/// their audio from the sink. Any other label moves nothing and feeds no strip;
/// every sink with a label is the sink of its label.
pub proof fn law_route_label_round_trip(label: Seq<char>, sink: Seq<char>, inputs: Seq<PipeWireDeviceNode>, s: SessionView)
    ensures
        sink_of_route_label(label) matches Some(k) ==> {
            &&& route_label_of_sink(k) == label
            &&& 3 <= crate::model::target_strip(label) <= 5
            &&& (crate::model::target_strip(label) < s.strips.len()
                && s.strips[crate::model::target_strip(label)].endpoint_kind == EndpointKind::VirtualInput)
                ==> route_source_of(inputs, s, crate::model::target_strip(label)) == Ok::<Seq<char>, Seq<char>>(k)
        },
        sink_of_route_label(label) is None ==> crate::model::target_strip(label) == -1,
        route_label_of_sink(sink) != ""@ ==> sink_of_route_label(route_label_of_sink(sink)) == Some(sink),
{
    lemma_virtual_names();
}

proof fn lemma_feeds_for_has(routes: Seq<AppRouteState>, i: int, j: int)
    requires
        0 <= j < routes.len(),
        crate::model::target_strip(routes[j].target@) == i,
    ensures
        crate::model::feeds_for(routes, i).contains(crate::model::feed_from(routes[j])),
    decreases routes.len(),
{
    let n = routes.len() - 1;
    let f = crate::model::feeds_for(routes, i);
    let rest = crate::model::feeds_for(routes.drop_last(), i);
    if j == n {
        assert(f == rest.push(crate::model::feed_from(routes.last())));
        assert(f[f.len() - 1] == crate::model::feed_from(routes[j]));
    } else {
        assert(routes.drop_last()[j] == routes[j]);
        lemma_feeds_for_has(routes.drop_last(), i, j);
        let k = choose|k: int| 0 <= k < rest.len() && rest[k] == crate::model::feed_from(routes[j]);
        if crate::model::target_strip(routes.last().target@) == i {
            assert(f[k] == rest[k]);
        } else {
            assert(f == rest);
        }
    }
}

/// An application reported in the sink that a virtual input strip reads from is
/// shown on that strip: a route whose target is the label of strip `i`'s source
/// sink is among the applications that the routes feed into strip `i`.
pub proof fn law_routed_app_feeds_its_strip(routes: Seq<AppRouteState>, inputs: Seq<PipeWireDeviceNode>, s: SessionView, i: int, j: int)
    requires
        0 <= i < s.strips.len(),
        s.strips[i].endpoint_kind == EndpointKind::VirtualInput,
        route_source_of(inputs, s, i) is Ok,
        0 <= j < routes.len(),
        routes[j].target@ == route_label_of_sink(route_source_of(inputs, s, i)->Ok_0),
    ensures
        crate::model::feeds_for(routes, i).contains(crate::model::feed_from(routes[j])),
{
    law_route_source_is_metered_node(inputs, s, i);
    lemma_feeds_for_has(routes, i, j);
}

} // verus!
