//! What the command line makes of what the user types
use crate::paths;
use crate::paths::{join_components, join_path, split_path};
use crate::peer_id;
use crate::peer_id::PeerId;
use crate::text;
use crate::text::{append_text, chars_of, is_prefix, joined, same_text, sub_text, text_of};
use crate::ui_messages::PeerInfo;
use vstd::prelude::*;

verus! {

/// A peer with its label and an abbreviated ID.
pub fn display_peer(peer: &PeerInfo) -> (r: String)
    ensures
        r@ == peer.name@ + "#"@ + peer_id::id_text(peer.id@).take(8),
{
    let mut r = joined(peer.name.as_str(), "#");
    append_text(&mut r, peer.id.abbreviated().as_str());
    r
}

/// What formatting a text for debugging gives.
pub uninterp spec fn debug_text(text: Seq<char>) -> Seq<char>;

/// Formats a text with the debug format of `str`, which puts it in quotes and escapes what is not
/// printable.
#[verifier::external_body]
fn quoted(text: &str) -> (r: String)
    ensures
        r@ == debug_text(text@),
{
    format!("{text:?}")
}

/// The peers with a label.
pub open spec fn with_name(peers: Seq<PeerInfo>, name: Seq<char>) -> Seq<PeerInfo>
    decreases peers.len(),
{
    if peers.len() == 0 {
        Seq::empty()
    } else if peers.last().name@ == name {
        with_name(peers.drop_last(), name).push(peers.last())
    } else {
        with_name(peers.drop_last(), name)
    }
}

/// The IDs of some peers, with commas between them.
pub open spec fn id_list(peers: Seq<PeerInfo>) -> Seq<char>
    decreases peers.len(),
{
    if peers.len() == 0 {
        Seq::empty()
    } else if peers.len() == 1 {
        peer_id::id_text(peers[0].id@)
    } else {
        id_list(peers.drop_last()) + ", "@ + peer_id::id_text(peers.last().id@)
    }
}

/// Whether a text is the full ID of a peer.
pub open spec fn is_full_id(selector: Seq<char>) -> bool {
    exists|id: Seq<u8>| id.len() == 32 && #[trigger] peer_id::id_text(id) == selector
}

/// The IDs of some peers, with commas between them.
fn listed_ids(peers: &Vec<PeerInfo>) -> (r: String)
    ensures
        r@ == id_list(peers@),
{
    let mut r = String::new();
    let mut i: usize = 0;
    assert(peers@.take(0) =~= Seq::<PeerInfo>::empty());
    while i < peers.len()
        invariant
            i <= peers@.len(),
            r@ == id_list(peers@.take(i as int)),
        decreases peers@.len() - i,
    {
        assert(peers@.take(i + 1).drop_last() =~= peers@.take(i as int));
        assert(peers@.take(i + 1).last() == peers@[i as int]);
        if i > 0 {
            append_text(&mut r, ", ");
        }
        append_text(&mut r, peers[i].id.to_string().as_str());
        if i == 0 {
            assert(r@ =~= peer_id::id_text(peers@[0].id@));
            assert(peers@.take(1)[0] == peers@[0]);
        }
        i += 1;
    }
    assert(peers@.take(i as int) =~= peers@);
    r
}

/// Finds the connected peer that a selector stands for: that with this full ID, or the only one
/// with this label.
pub fn resolve_peer_from(peers: Vec<PeerInfo>, selector: &str) -> (r: Result<PeerInfo, String>)
    ensures
        if is_full_id(selector@) {
            match r {
                Ok(peer) => peers@.contains(peer) && peer_id::id_text(peer.id@) == selector@,
                Err(error) => {
                    &&& forall|i: int|
                        0 <= i < peers@.len() ==> peer_id::id_text((#[trigger] peers@[i]).id@) != selector@
                    &&& error@ == "Peer "@ + selector@ + " is not connected"@
                },
            }
        } else {
            let matching = with_name(peers@, selector@);
            match r {
                Ok(peer) => matching.len() == 1 && peer == matching[0],
                Err(error) => if matching.len() == 0 {
                    error@ == "No connected peer named "@ + debug_text(selector@)
                } else {
                    &&& matching.len() > 1
                    &&& error@ == "Peer name "@ + debug_text(selector@)
                        + " is ambiguous; matching IDs: "@ + id_list(matching)
                },
            }
        },
{
    match PeerId::from_str(selector) {
        Ok(id) => {
            let mut i: usize = 0;
            while i < peers.len()
                invariant
                    i <= peers@.len(),
                    peer_id::id_text(id@) == selector@,
                    forall|k: int|
                        0 <= k < i ==> peer_id::id_text((#[trigger] peers@[k]).id@) != selector@,
                decreases peers@.len() - i,
            {
                proof {
                    peers@[i as int].id.lemma_view(id);
                    if peer_id::id_text(peers@[i as int].id@) == peer_id::id_text(id@) {
                        crate::peer_id::law_id_text_identifies(peers@[i as int].id, id);
                    }
                }
                if peers[i].id == id {
                    let peer = peers[i].duplicate();
                    assert(peers@[i as int] == peer);
                    return Ok(peer);
                }
                i += 1;
            }
            let mut error = joined("Peer ", selector);
            append_text(&mut error, " is not connected");
            Err(error)
        },
        Err(_) => {
            let mut matches: Vec<PeerInfo> = Vec::new();
            let mut i: usize = 0;
            assert(peers@.take(0) =~= Seq::<PeerInfo>::empty());
            assert(matches@ =~= with_name(peers@.take(0), selector@));
            while i < peers.len()
                invariant
                    i <= peers@.len(),
                    matches@ == with_name(peers@.take(i as int), selector@),
                decreases peers@.len() - i,
            {
                assert(peers@.take(i + 1).drop_last() =~= peers@.take(i as int));
                assert(peers@.take(i + 1).last() == peers@[i as int]);
                if same_text(peers[i].name.as_str(), selector) {
                    matches.push(peers[i].duplicate());
                }
                i += 1;
            }
            assert(peers@.take(i as int) =~= peers@);
            if matches.len() == 0 {
                return Err(joined("No connected peer named ", quoted(selector).as_str()));
            }
            if matches.len() == 1 {
                return Ok(matches[0].duplicate());
            }
            let mut error = joined("Peer name ", quoted(selector).as_str());
            append_text(&mut error, " is ambiguous; matching IDs: ");
            append_text(&mut error, listed_ids(&matches).as_str());
            Err(error)
        },
    }
}

/// A full ID always stands for the same peer, whatever labels there are.
pub proof fn law_full_id_is_unambiguous(selector: Seq<char>, a: PeerInfo, b: PeerInfo)
    requires
        peer_id::id_text(a.id@) == selector,
        peer_id::id_text(b.id@) == selector,
    ensures
        a.id == b.id,
{
    crate::peer_id::law_id_text_identifies(a.id, b.id);
}

/// Whether a part of a path names nothing.
pub open spec fn is_idle(part: Seq<char>) -> bool {
    part.len() == 0 || part == seq!['.']
}

/// Parts without those at the start that name nothing.
pub open spec fn without_idle_start(parts: Seq<Seq<char>>) -> Seq<Seq<char>>
    decreases parts.len(),
{
    if parts.len() > 0 && is_idle(parts[0]) {
        without_idle_start(parts.drop_first())
    } else {
        parts
    }
}

/// Parts without those at the end that name nothing.
pub open spec fn without_idle_end(parts: Seq<Seq<char>>) -> Seq<Seq<char>>
    decreases parts.len(),
{
    if parts.len() > 0 && is_idle(parts.last()) {
        without_idle_end(parts.drop_last())
    } else {
        parts
    }
}

/// What the first component of a path is: the root, or what comes before the first separator.
pub open spec fn first_component(path: Seq<char>) -> Seq<char> {
    if path[0] == '/' {
        seq!['/']
    } else {
        paths::split(path)[0]
    }
}

/// What comes after the first component of a path.
pub open spec fn rest_of_path(path: Seq<char>) -> Seq<char> {
    paths::join(without_idle_end(without_idle_start(paths::split(path).skip(1))))
}

fn is_idle_part(part: &Vec<char>) -> (r: bool)
    ensures
        r == is_idle(part@),
{
    let r = part.len() == 0 || (part.len() == 1 && part[0] == '.');
    assert(part@.len() == 1 && part@[0] == '.' ==> part@ =~= seq!['.']);
    r
}

proof fn lemma_trimmed(parts: Seq<Seq<char>>, from: int, to: int)
    requires
        0 <= from <= to <= parts.len(),
        forall|k: int| 0 <= k < from ==> is_idle(#[trigger] parts[k]),
        from < parts.len() ==> !is_idle(parts[from]),
        forall|k: int| to <= k < parts.len() ==> is_idle(#[trigger] parts[k]),
        from < to ==> !is_idle(parts[to - 1]),
    ensures
        without_idle_end(without_idle_start(parts)) == parts.subrange(from, to),
    decreases parts.len(),
{
    if from > 0 {
        let rest = parts.drop_first();
        assert forall|k: int| 0 <= k < from - 1 implies is_idle(#[trigger] rest[k]) by {
            assert(is_idle(parts[k + 1]));
        }
        assert forall|k: int| to - 1 <= k < rest.len() implies is_idle(#[trigger] rest[k]) by {
            assert(is_idle(parts[k + 1]));
        }
        assert(is_idle(parts[0]));
        lemma_trimmed(rest, from - 1, to - 1);
        assert(rest.subrange(from - 1, to - 1) =~= parts.subrange(from, to));
    } else if to < parts.len() {
        let rest = parts.drop_last();
        assert(is_idle(parts[parts.len() - 1]));
        if to > 0 {
            assert(rest[from] == parts[from]);
        }
        if rest.len() > 0 {
            assert(from < to) by {
                if from == to {
                    assert(is_idle(parts[from]));
                }
            }
            lemma_trimmed(rest, from, to);
            assert(without_idle_start(rest) == rest);
            assert(without_idle_start(parts) == parts);
        } else {
            assert(is_idle(parts[from]));
        }
        assert(rest.subrange(from, to) =~= parts.subrange(from, to));
    } else {
        assert(parts.subrange(from, to) =~= parts);
    }
}

/// Split path into peername and path components
pub fn path_to_peer_path(path: &str) -> (r: (Option<String>, String))
    ensures
        match r.0 {
            Some(peer) => path@.len() > 0 && peer@ == first_component(path@) && r.1@
                == rest_of_path(path@),
            None => path@.len() == 0 && r.1@.len() == 0,
        },
{
    let chars = chars_of(path);
    if chars.len() == 0 {
        return (None, String::new());
    }
    let parts = split_path(path);
    let ghost all = paths::split(path@);
    let peer = if chars[0] == '/' {
        let peer = "/".to_owned();
        proof {
            reveal_strlit("/");
            assert(peer@ =~= seq!['/']);
        }
        peer
    } else {
        assert(all[0] == parts@[0]@);
        text_of(parts[0].as_slice())
    };
    let n: usize = parts.len();
    let ghost rest = all.skip(1);
    let mut from: usize = 1;
    while from < n && is_idle_part(&parts[from])
        invariant
            1 <= from <= n,
            n == parts@.len(),
            all == paths::char_texts(parts@),
            rest == all.skip(1),
            forall|k: int| 0 <= k < from - 1 ==> is_idle(#[trigger] rest[k]),
        ensures
            1 <= from <= n,
            from < n ==> !is_idle(parts@[from as int]@),
            forall|k: int| 0 <= k < from - 1 ==> is_idle(#[trigger] rest[k]),
        decreases n - from,
    {
        assert(rest[from - 1] == parts@[from as int]@);
        from += 1;
    }
    let mut to: usize = n;
    while to > from && is_idle_part(&parts[to - 1])
        invariant
            1 <= from <= to <= n,
            n == parts@.len(),
            all == paths::char_texts(parts@),
            rest == all.skip(1),
            forall|k: int| to - 1 <= k < rest.len() ==> is_idle(#[trigger] rest[k]),
        ensures
            1 <= from <= to <= n,
            from < to ==> !is_idle(parts@[to - 1]@),
            forall|k: int| to - 1 <= k < rest.len() ==> is_idle(#[trigger] rest[k]),
        decreases to,
    {
        assert(rest[to - 2] == parts@[to - 1]@);
        to -= 1;
    }
    let mut kept: Vec<String> = Vec::new();
    let mut i: usize = from;
    while i < to
        invariant
            1 <= from <= i <= to <= n,
            n == parts@.len(),
            all == paths::char_texts(parts@),
            kept@.len() == i - from,
            forall|k: int| 0 <= k < kept@.len() ==> (#[trigger] kept@[k])@ == all[k + from],
        decreases to - i,
    {
        assert(all[i as int] == parts@[i as int]@);
        kept.push(text_of(parts[i].as_slice()));
        i += 1;
    }
    proof {
        if from < n {
            assert(rest[from - 1] == parts@[from as int]@);
        }
        if from < to {
            assert(rest[to - 2] == parts@[to - 1]@);
        }
        lemma_trimmed(rest, from - 1, to - 1);
        assert(paths::texts(kept@) =~= rest.subrange(from - 1, to - 1));
    }
    (Some(peer), join_components(&kept))
}

/// A variable of the environment.
pub enum EnvVar {
    Unset,
    NotUnicode,
    Text(String),
}

/// A path below a directory, unless it is absolute.
pub open spec fn pushed(dir: Seq<char>, part: Seq<char>) -> Seq<char> {
    if part.len() > 0 && part[0] == '/' {
        part
    } else {
        paths::below(dir, part)
    }
}

/// Puts a path below a directory, unless it is absolute.
fn push_path(dir: &str, part: &str) -> (r: String)
    ensures
        r@ == pushed(dir@, part@),
{
    let chars = chars_of(part);
    if chars.len() > 0 && chars[0] == '/' {
        part.to_owned()
    } else {
        join_path(dir, part)
    }
}

/// Gets home directory
pub fn get_home_dir(home: &EnvVar, user: &EnvVar) -> (r: Result<String, String>)
    ensures
        match *home {
            EnvVar::Text(dir) => r matches Ok(found) && found@ == dir@,
            EnvVar::NotUnicode => r matches Err(error) && error@ == "Cannot parse $HOME"@,
            EnvVar::Unset => match *user {
                EnvVar::Text(name) => r matches Ok(found) && found@ == pushed("/home"@, name@),
                EnvVar::NotUnicode => r matches Err(error) && error@ == "Cannot parse $USER"@,
                EnvVar::Unset => r matches Err(error) && error@ == "Cannot get home directory"@,
            },
        },
{
    match home {
        EnvVar::Text(dir) => Ok(dir.clone()),
        EnvVar::NotUnicode => Err("Cannot parse $HOME".to_owned()),
        EnvVar::Unset => match user {
            EnvVar::Text(name) => Ok(push_path("/home", name.as_str())),
            EnvVar::NotUnicode => Err("Cannot parse $USER".to_owned()),
            EnvVar::Unset => Err("Cannot get home directory".to_owned()),
        },
    }
}

/// Get local data directory according to XDG base directory specification
pub fn get_data_dir(xdg_data_home: &EnvVar, home: &EnvVar, user: &EnvVar) -> (r: Result<
    String,
    String,
>)
    ensures
        match *xdg_data_home {
            EnvVar::Text(dir) => r matches Ok(found) && found@ == dir@,
            EnvVar::NotUnicode => r matches Err(error) && error@ == "Cannot parse XDG_DATA_HOME"@,
            EnvVar::Unset => match *home {
                EnvVar::Text(dir) => r matches Ok(found) && found@ == paths::below(
                    paths::below(dir@, ".local"@),
                    "share"@,
                ),
                EnvVar::NotUnicode => r matches Err(error) && error@ == "Cannot parse $HOME"@,
                EnvVar::Unset => match *user {
                    EnvVar::Text(name) => r matches Ok(found) && found@ == paths::below(
                        paths::below(pushed("/home"@, name@), ".local"@),
                        "share"@,
                    ),
                    EnvVar::NotUnicode => r matches Err(error) && error@ == "Cannot parse $USER"@,
                    EnvVar::Unset => r matches Err(error) && error@ == "Cannot get home directory"@,
                },
            },
        },
{
    match xdg_data_home {
        EnvVar::Text(dir) => Ok(dir.clone()),
        EnvVar::NotUnicode => Err("Cannot parse XDG_DATA_HOME".to_owned()),
        EnvVar::Unset => match get_home_dir(home, user) {
            Ok(home_dir) => {
                let local = join_path(home_dir.as_str(), ".local");
                Ok(join_path(local.as_str(), "share"))
            },
            Err(error) => Err(error),
        },
    }
}

/// An address without the scheme in front of it.
pub open spec fn without_scheme(address: Seq<char>) -> Seq<char> {
    if text::begins_with(address, "http://"@) {
        address.skip("http://"@.len() as int)
    } else if text::begins_with(address, "https://"@) {
        address.skip("https://"@.len() as int)
    } else {
        address
    }
}

/// The address to serve the user interface on, without the scheme in front of it.
pub fn ui_socket_address(ui_address: &str) -> (r: String)
    ensures
        r@ == without_scheme(ui_address@),
{
    let length: usize = chars_of(ui_address).len();
    if is_prefix(ui_address, "http://") {
        let n: usize = "http://".unicode_len();
        let r = sub_text(ui_address, n, length);
        assert(r@ =~= ui_address@.skip(n as int));
        return r;
    }
    if is_prefix(ui_address, "https://") {
        let n: usize = "https://".unicode_len();
        let r = sub_text(ui_address, n, length);
        assert(r@ =~= ui_address@.skip(n as int));
        return r;
    }
    ui_address.to_owned()
}

proof fn lemma_nothing_idle(parts: Seq<Seq<char>>)
    requires
        forall|i: int| 0 <= i < parts.len() ==> paths::is_plain(#[trigger] parts[i]),
    ensures
        without_idle_end(without_idle_start(parts)) == parts,
{
    if parts.len() > 0 {
        assert(paths::is_plain(parts[0]));
        assert(paths::is_plain(parts[parts.len() - 1]));
    }
}

/// A path whose components have plain names, put together from them, names the peer by its first
/// component, and the rest of it is the path at the peer.
pub proof fn law_path_begins_with_the_peer(peer: Seq<char>, path: Seq<Seq<char>>)
    requires
        paths::is_plain(peer),
        forall|i: int| 0 <= i < path.len() ==> paths::is_plain(#[trigger] path[i]),
    ensures
        first_component(paths::join(seq![peer] + path)) == peer,
        rest_of_path(paths::join(seq![peer] + path)) == paths::join(path),
{
    let parts = seq![peer] + path;
    assert forall|i: int| 0 <= i < parts.len() implies paths::is_plain(#[trigger] parts[i]) by {
        if i > 0 {
            assert(parts[i] == path[i - 1]);
        }
    }
    assert forall|i: int| 0 <= i < parts.len() implies !(#[trigger] parts[i]).contains('/') by {
        assert(paths::is_plain(parts[i]));
    }
    paths::lemma_split_join(parts);
    paths::law_plain_components_round_trip(parts);
    assert(paths::join(parts).len() > 0) by {
        if paths::join(parts).len() == 0 {
            assert(paths::split(paths::join(parts)) =~= seq![Seq::<char>::empty()]);
            assert(parts[0].len() == 0);
        }
    }
    assert(parts.skip(1) =~= path);
    lemma_nothing_idle(path);
}

/// The address that the user interface is served on can be given with or without a scheme.
pub proof fn law_scheme_does_not_matter(address: Seq<char>)
    requires
        !text::begins_with(address, "http://"@),
        !text::begins_with(address, "https://"@),
    ensures
        without_scheme(address) == address,
        without_scheme("http://"@ + address) == address,
        without_scheme("https://"@ + address) == address,
{
    reveal_strlit("http://");
    reveal_strlit("https://");
    let plain = "http://"@ + address;
    let secure = "https://"@ + address;
    assert(plain.subrange(0, 7) =~= "http://"@);
    assert(text::found_at(plain, "http://"@, 0));
    assert(plain.skip(7) =~= address);
    assert(secure.subrange(0, 8) =~= "https://"@);
    assert(text::found_at(secure, "https://"@, 0));
    assert(secure[4] == 's');
    assert(secure.subrange(0, 7)[4] != "http://"@[4]);
    assert(secure.skip(8) =~= address);
}

/// A name stands for all peers that have it as their label.
pub proof fn law_a_name_stands_for_its_peers(peers: Seq<PeerInfo>, name: Seq<char>)
    ensures
        with_name(peers, name) == peers.filter(|peer: PeerInfo| peer.name@ == name),
    decreases peers.len(),
{
    reveal(Seq::filter);
    if peers.len() > 0 {
        law_a_name_stands_for_its_peers(peers.drop_last(), name);
    }
}

/// Parts that name nothing do not count between the peer and the path, nor at the end.
pub proof fn law_idle_parts_do_not_count(
    peer: Seq<char>,
    before: Seq<Seq<char>>,
    path: Seq<Seq<char>>,
    after: Seq<Seq<char>>,
)
    requires
        paths::is_plain(peer),
        path.len() > 0,
        forall|i: int| 0 <= i < path.len() ==> paths::is_plain(#[trigger] path[i]),
        forall|i: int|
            0 <= i < before.len() ==> (#[trigger] before[i]).len() == 0 || before[i] == seq!['.'],
        forall|i: int|
            0 <= i < after.len() ==> (#[trigger] after[i]).len() == 0 || after[i] == seq!['.'],
    ensures
        rest_of_path(paths::join(seq![peer] + before + path + after)) == paths::join(path),
{
    let parts = seq![peer] + before + path + after;
    let rest = before + path + after;
    let from = before.len() as int;
    let to = from + path.len();
    assert(parts.skip(1) =~= rest);
    assert forall|i: int| 0 <= i < parts.len() implies !(#[trigger] parts[i]).contains('/') by {
        if 1 <= i < 1 + from {
            assert(parts[i] == before[i - 1]);
        } else if 1 + from <= i < 1 + to {
            assert(parts[i] == path[i - 1 - from]);
            assert(paths::is_plain(path[i - 1 - from]));
        } else if i > 0 {
            assert(parts[i] == after[i - 1 - to]);
        }
    }
    paths::lemma_split_join(parts);
    assert forall|k: int| 0 <= k < from implies is_idle(#[trigger] rest[k]) by {
        assert(rest[k] == before[k]);
    }
    assert forall|k: int| to <= k < rest.len() implies is_idle(#[trigger] rest[k]) by {
        assert(rest[k] == after[k - to]);
    }
    assert(rest[from] == path[0] && paths::is_plain(path[0]));
    assert(rest[to - 1] == path[path.len() - 1] && paths::is_plain(path[path.len() - 1]));
    lemma_trimmed(rest, from, to);
    assert(rest.subrange(from, to) =~= path);
}

/// An absolute path starts with the root.
pub proof fn law_absolute_paths_start_with_the_root(path: Seq<char>)
    ensures
        first_component(seq!['/'] + path) == seq!['/'],
{
}

/// An absolute path replaces the directory that it is put below. Another one has the components of
/// the directory and then its own.
pub proof fn law_absolute_paths_replace_the_directory(dir: Seq<char>, part: Seq<char>)
    ensures
        pushed(dir, seq!['/'] + part) == seq!['/'] + part,
        part.len() == 0 || part[0] != '/' ==> paths::components(pushed(dir, part))
            == paths::components(dir) + paths::components(part),
{
    paths::law_components_of_a_path_below(dir, part);
}

/// Where a name is ambiguous, the IDs of all its peers are listed, with commas between them.
pub proof fn law_all_ids_are_listed(peers: Seq<PeerInfo>, another: PeerInfo)
    ensures
        id_list(seq![another]) == peer_id::id_text(another.id@),
        peers.len() > 0 ==> id_list(peers.push(another)) == id_list(peers) + ", "@ + peer_id::id_text(
            another.id@,
        ),
{
    assert(peers.push(another).drop_last() =~= peers);
}

} // verus!
