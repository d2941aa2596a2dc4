//! The wire protocol. Control plane: one request per connection — a
//! check-update or a metadata query — answered with exactly one reply.
//! Data plane: eight request bytes, read as a big-endian download handle,
//! answered with the addressed blob or with nothing at all.

use vstd::prelude::*;
use crate::catalog::{
    compose_handle, handle_generation, handle_slot, is_selected, lemma_selected_unique, lookup,
    matches_query, resolve, Catalog,
};
use crate::location::InstallLocation;
use crate::manifest::default_bool;
use crate::version::{
    key_cmp, key_of, lemma_version_order_antisym, parse_version, semver_parts, version_is_zero,
    Version,
};

verus! {

/// What a check-update reply says.
#[derive(Clone, Copy, PartialEq, Eq, Structural, Debug)]
pub enum ResponseCode {
    NoUpdate,
    Update,
    InvalidRequest,
    PluginNotFound,
}

/// One file a client must download: its byte count, the download handle to
/// send on the data plane, and where to install it.
pub struct UpdateFile {
    pub size: usize,
    pub download_index: u64,
    pub install_location: InstallLocation,
}

/// The control plane's reply to a check-update request.
pub struct UpdateResponse {
    pub code: ResponseCode,
    pub update_plugin: bool,
    pub update_skyline: bool,
    pub plugin_name: String,
    pub new_plugin_version: Version,
    pub new_skyline_version: Option<Version>,
    pub required_files: Vec<UpdateFile>,
}

/// The control plane's reply to a metadata request: display strings and the
/// download handles of the entry's images and changelog.
pub struct PluginMetadata {
    pub name: Option<String>,
    pub description: Option<String>,
    pub images_index: u64,
    pub image_count: u64,
    pub changelog_index: u64,
}

/// One decoded control-plane request.
pub enum Request {
    Update { plugin_name: String, plugin_version: String, beta: Option<bool> },
    Metadata { plugin_name: String, beta: Option<bool> },
}

/// Every control-plane connection is answered with exactly one of these.
pub enum ControlReply {
    Update(UpdateResponse),
    Metadata(PluginMetadata),
    MetadataNotFound,
}

/// A response that carries a code and nothing else.
pub open spec fn bare_response(r: UpdateResponse, code: ResponseCode) -> bool {
    &&& r.code == code
    &&& r.update_plugin == false
    &&& r.update_skyline == false
    &&& r.plugin_name@ == Seq::<char>::empty()
    &&& version_is_zero(r.new_plugin_version)
    &&& r.new_skyline_version is None
    &&& r.required_files@.len() == 0
}

impl UpdateResponse {
    fn bare(code: ResponseCode) -> (r: UpdateResponse)
        ensures
            bare_response(r, code),
    {
        UpdateResponse {
            code,
            update_plugin: false,
            update_skyline: false,
            plugin_name: String::new(),
            new_plugin_version: Version::zero(),
            new_skyline_version: None,
            required_files: Vec::new(),
        }
    }

    /// The reply when no newer version is hosted.
    pub fn no_update() -> (r: UpdateResponse)
        ensures
            bare_response(r, ResponseCode::NoUpdate),
    {
        Self::bare(ResponseCode::NoUpdate)
    }

    /// The reply to a request the server cannot make sense of.
    pub fn invalid_request() -> (r: UpdateResponse)
        ensures
            bare_response(r, ResponseCode::InvalidRequest),
    {
        Self::bare(ResponseCode::InvalidRequest)
    }

    /// The reply when no hosted entry answers the query.
    pub fn plugin_not_found() -> (r: UpdateResponse)
        ensures
            bare_response(r, ResponseCode::PluginNotFound),
    {
        Self::bare(ResponseCode::PluginNotFound)
    }
}

/// No catalog entry answers the query.
pub open spec fn no_entry_matches(c: Catalog, name: Seq<char>, b: bool) -> bool {
    forall|j: int| 0 <= j < c.entries@.len() ==> !matches_query(#[trigger] c.entries@[j], name, b)
}

/// What the check-update reply must say, given the catalog and the request:
/// an unanswered query is `PluginNotFound`; an unreadable client version is
/// `InvalidRequest`; a hosted version no newer than the client's is
/// `NoUpdate`; and a newer hosted version is offered as `Update`, carrying
/// the resolved version and one wire descriptor per served file, whose
/// handle addresses the file's slot in this catalog's generation.
pub open spec fn check_update_spec(
    c: Catalog,
    name: Seq<char>,
    version_str: Seq<char>,
    b: bool,
    r: UpdateResponse,
) -> bool {
    &&& (no_entry_matches(c, name, b) <==> r.code == ResponseCode::PluginNotFound)
    &&& (r.code == ResponseCode::PluginNotFound ==> bare_response(
        r,
        ResponseCode::PluginNotFound,
    ))
    &&& forall|i: int|
        is_selected(c.entries@, name, b, i) ==> {
            &&& (semver_parts(version_str) is None <==> r.code == ResponseCode::InvalidRequest)
            &&& (semver_parts(version_str) is None ==> bare_response(
                r,
                ResponseCode::InvalidRequest,
            ))
            &&& (semver_parts(version_str) matches Some(k) ==> {
                &&& (key_cmp(key_of((#[trigger] c.entries@[i]).version), k) <= 0 <==> r.code
                    == ResponseCode::NoUpdate)
                &&& (r.code == ResponseCode::NoUpdate ==> bare_response(
                    r,
                    ResponseCode::NoUpdate,
                ))
                &&& (key_cmp(k, key_of(c.entries@[i].version)) < 0 <==> r.code
                    == ResponseCode::Update)
                &&& (r.code == ResponseCode::Update ==> {
                    &&& r.update_plugin == true
                    &&& r.update_skyline == false
                    &&& r.plugin_name@ == name
                    &&& r.new_plugin_version == c.entries@[i].version
                    &&& r.new_skyline_version is None
                    &&& r.required_files@.len() == c.entries@[i].files@.len()
                    &&& forall|k: int|
                        0 <= k < c.entries@[i].files@.len() ==> {
                            &&& (#[trigger] r.required_files@[k]).size == c.entries@[i].files@[
                                k
                            ].size
                            &&& r.required_files@[k].install_location == c.entries@[i].files@[
                                k
                            ].install_location
                            &&& handle_generation(r.required_files@[k].download_index)
                                == c.generation
                            &&& handle_slot(r.required_files@[k].download_index) == c.entries@[
                                i
                            ].files@[k].slot
                        }
                })
            })
        }
}

/// Answer one check-update request against the current catalog.
pub fn handle_check_update(
    c: &Catalog,
    plugin_name: String,
    plugin_version: &String,
    beta: Option<bool>,
) -> (r: UpdateResponse)
    requires
        c.wf(),
    ensures
        check_update_spec(*c, plugin_name@, plugin_version@, default_bool(beta), r),
{
    let b = match beta {
        Some(x) => x,
        None => false,
    };
    match resolve(c, &plugin_name, b) {
        None => UpdateResponse::plugin_not_found(),
        Some(i) => {
            proof {
                assert(matches_query(c.entries@[i as int], plugin_name@, b));
            }
            match parse_version(plugin_version.as_str()) {
                None => {
                    let r = UpdateResponse::invalid_request();
                    proof {
                        assert forall|t: int|
                            is_selected(c.entries@, plugin_name@, b, t) implies t == i as int by {
                            lemma_selected_unique(c.entries@, plugin_name@, b, t, i as int);
                        }
                    }
                    r
                },
                Some(cv) => {
                    let e = &c.entries[i];
                    proof {
                        lemma_version_order_antisym(cv, c.entries@[i as int].version);
                    }
                    if cv.lt(&e.version) {
                        let mut rf: Vec<UpdateFile> = Vec::new();
                        let mut k: usize = 0;
                        while k < e.files.len()
                            invariant
                                c.wf(),
                                i < c.entries@.len(),
                                e == &c.entries@[i as int],
                                k <= e.files@.len(),
                                rf@.len() == k,
                                forall|m: int|
                                    0 <= m < k ==> {
                                        &&& (#[trigger] rf@[m]).size == e.files@[m].size
                                        &&& rf@[m].install_location == e.files@[
                                            m
                                        ].install_location
                                        &&& handle_generation(rf@[m].download_index)
                                            == c.generation
                                        &&& handle_slot(rf@[m].download_index) == e.files@[
                                            m
                                        ].slot
                                    },
                            decreases e.files@.len() - k,
                        {
                            let fd = &e.files[k];
                            let idx = compose_handle(c.generation, fd.slot);
                            rf.push(
                                UpdateFile {
                                    size: fd.size,
                                    download_index: idx,
                                    install_location: fd.install_location.dup(),
                                },
                            );
                            k += 1;
                        }
                        let r = UpdateResponse {
                            code: ResponseCode::Update,
                            update_plugin: true,
                            update_skyline: false,
                            plugin_name,
                            new_plugin_version: e.version.dup(),
                            new_skyline_version: None,
                            required_files: rf,
                        };
                        proof {
                            assert forall|t: int|
                                is_selected(c.entries@, plugin_name@, b, t) implies t
                                == i as int by {
                                lemma_selected_unique(c.entries@, plugin_name@, b, t, i as int);
                            }
                        }
                        r
                    } else {
                        let r = UpdateResponse::no_update();
                        proof {
                            assert forall|t: int|
                                is_selected(c.entries@, plugin_name@, b, t) implies t
                                == i as int by {
                                lemma_selected_unique(c.entries@, plugin_name@, b, t, i as int);
                            }
                        }
                        r
                    }
                },
            }
        },
    }
}

/// A check-update request naming a plugin no catalog entry answers is
/// replied `PluginNotFound`, whatever its version string says.
pub proof fn lemma_absent_plugin_not_found(
    c: Catalog,
    name: Seq<char>,
    version_str: Seq<char>,
    b: bool,
    r: UpdateResponse,
)
    requires
        check_update_spec(c, name, version_str, b, r),
        no_entry_matches(c, name, b),
    ensures
        r.code == ResponseCode::PluginNotFound,
{
}

/// A check-update request whose client version is not a semantic version is
/// replied `InvalidRequest`, whenever an entry answers the query.
pub proof fn lemma_unparsable_version_invalid_request(
    c: Catalog,
    name: Seq<char>,
    version_str: Seq<char>,
    b: bool,
    r: UpdateResponse,
    i: int,
)
    requires
        check_update_spec(c, name, version_str, b, r),
        is_selected(c.entries@, name, b, i),
        semver_parts(version_str) is None,
    ensures
        r.code == ResponseCode::InvalidRequest,
{
}

/// A check-update request whose client version is at or above the resolved
/// entry's version is replied `NoUpdate`.
pub proof fn lemma_no_newer_version_no_update(
    c: Catalog,
    name: Seq<char>,
    version_str: Seq<char>,
    b: bool,
    r: UpdateResponse,
    i: int,
    k: (u64, u64, u64, Seq<char>),
)
    requires
        check_update_spec(c, name, version_str, b, r),
        is_selected(c.entries@, name, b, i),
        semver_parts(version_str) == Some(k),
        key_cmp(key_of(c.entries@[i].version), k) <= 0,
    ensures
        r.code == ResponseCode::NoUpdate,
{
}

/// Every file an offer carries can be fetched: its handle carries the
/// serving generation and addresses a table slot holding exactly as many
/// bytes as the descriptor declares.
pub proof fn lemma_offered_files_are_served(
    c: Catalog,
    name: Seq<char>,
    version_str: Seq<char>,
    b: bool,
    r: UpdateResponse,
    i: int,
)
    requires
        c.wf(),
        check_update_spec(c, name, version_str, b, r),
        is_selected(c.entries@, name, b, i),
        r.code == ResponseCode::Update,
    ensures
        forall|k: int|
            0 <= k < r.required_files@.len() ==> {
                &&& handle_generation((#[trigger] r.required_files@[k]).download_index)
                    == c.generation
                &&& handle_slot(r.required_files@[k].download_index) < c.table@.len()
                &&& c.table@[handle_slot(r.required_files@[k].download_index)]@.len()
                    == r.required_files@[k].size
            },
{
    assert forall|k: int| 0 <= k < r.required_files@.len() implies {
        &&& handle_generation((#[trigger] r.required_files@[k]).download_index) == c.generation
        &&& handle_slot(r.required_files@[k].download_index) < c.table@.len()
        &&& c.table@[handle_slot(r.required_files@[k].download_index)]@.len() == r.required_files@[
            k
        ].size
    } by {
        assert(r.required_files@[k].size == c.entries@[i].files@[k].size);
        assert(c.entries@[i].files@[k].slot < c.table@.len());
    }
}

/// An equal optional string.
fn dup_opt_string(o: &Option<String>) -> (r: Option<String>)
    ensures
        r == *o,
{
    match o {
        Some(s) => Some(s.clone()),
        None => None,
    }
}

/// What the metadata reply must say: the entry the query resolves to gives
/// its display strings and the handles of its image and changelog slots; an
/// unanswered query gets the explicit not-found reply.
pub open spec fn metadata_spec(c: Catalog, name: Seq<char>, b: bool, r: ControlReply) -> bool {
    &&& (no_entry_matches(c, name, b) <==> r is MetadataNotFound)
    &&& forall|i: int|
        is_selected(c.entries@, name, b, i) ==> {
            &&& r is Metadata
            &&& (r matches ControlReply::Metadata(m) ==> {
                &&& m.name == (#[trigger] c.entries@[i]).metadata.name
                &&& m.description == c.entries@[i].metadata.description
                &&& handle_generation(m.images_index) == c.generation
                &&& handle_slot(m.images_index) == c.entries@[i].metadata.images_slot
                &&& m.image_count == c.entries@[i].metadata.image_count
                &&& handle_generation(m.changelog_index) == c.generation
                &&& handle_slot(m.changelog_index) == c.entries@[i].metadata.changelog_slot
            })
        }
}

/// Answer one decoded control-plane request; a request that could not be
/// decoded is answered `InvalidRequest`. Exactly one reply comes back for
/// every connection — a metadata query nothing answers gets the explicit
/// not-found reply rather than silence.
pub fn handle_request(c: &Catalog, req: Option<Request>) -> (r: ControlReply)
    requires
        c.wf(),
    ensures
        req is None ==> (r matches ControlReply::Update(u) && bare_response(
            u,
            ResponseCode::InvalidRequest,
        )),
        (req matches Some(Request::Update { plugin_name, plugin_version, beta }) ==> r matches
            ControlReply::Update(u) && check_update_spec(
            *c,
            plugin_name@,
            plugin_version@,
            default_bool(beta),
            u,
        )),
        (req matches Some(Request::Metadata { plugin_name, beta }) ==> metadata_spec(
            *c,
            plugin_name@,
            default_bool(beta),
            r,
        )),
{
    match req {
        None => ControlReply::Update(UpdateResponse::invalid_request()),
        Some(Request::Update { plugin_name, plugin_version, beta }) => ControlReply::Update(
            handle_check_update(c, plugin_name, &plugin_version, beta),
        ),
        Some(Request::Metadata { plugin_name, beta }) => {
            let b = match beta {
                Some(x) => x,
                None => false,
            };
            match resolve(c, &plugin_name, b) {
                None => ControlReply::MetadataNotFound,
                Some(i) => {
                    proof {
                        assert(matches_query(c.entries@[i as int], plugin_name@, b));
                        assert forall|t: int|
                            is_selected(c.entries@, plugin_name@, b, t) implies t == i as int by {
                            lemma_selected_unique(c.entries@, plugin_name@, b, t, i as int);
                        }
                    }
                    let e = &c.entries[i];
                    let m = PluginMetadata {
                        name: dup_opt_string(&e.metadata.name),
                        description: dup_opt_string(&e.metadata.description),
                        images_index: compose_handle(c.generation, e.metadata.images_slot),
                        image_count: e.metadata.image_count as u64,
                        changelog_index: compose_handle(c.generation, e.metadata.changelog_slot),
                    };
                    ControlReply::Metadata(m)
                },
            }
        },
    }
}

/// The value of a big-endian byte string.
pub open spec fn be_value(s: Seq<u8>) -> int
    decreases s.len(),
{
    if s.len() == 0 {
        0
    } else {
        be_value(s.drop_last()) * 256 + s.last()
    }
}

/// `256^n`.
pub open spec fn pow256(n: nat) -> int
    decreases n,
{
    if n == 0 {
        1
    } else {
        256 * pow256((n - 1) as nat)
    }
}

/// A big-endian byte string of length `n` holds a value below `256^n`.
proof fn lemma_be_value_bound(s: Seq<u8>)
    ensures
        0 <= be_value(s) < pow256(s.len()),
    decreases s.len(),
{
    if s.len() > 0 {
        lemma_be_value_bound(s.drop_last());
    }
}

/// `256^n` is positive.
proof fn lemma_pow256_pos(n: nat)
    ensures
        pow256(n) >= 1,
    decreases n,
{
    if n > 0 {
        lemma_pow256_pos((n - 1) as nat);
    }
}

/// `256^n` grows with `n`.
proof fn lemma_pow256_mono(i: nat, j: nat)
    requires
        i <= j,
    ensures
        pow256(i) <= pow256(j),
    decreases j - i,
{
    if i < j {
        lemma_pow256_mono(i, (j - 1) as nat);
        lemma_pow256_pos((j - 1) as nat);
        assert(pow256(j) == 256 * pow256((j - 1) as nat));
    }
}

/// Read eight bytes as a big-endian unsigned integer: the data-plane
/// request framing.
pub fn u64_from_be_bytes(b: &Vec<u8>) -> (r: u64)
    requires
        b@.len() == 8,
    ensures
        r == be_value(b@),
{
    proof {
        reveal_with_fuel(pow256, 9);
    }
    let mut acc: u64 = 0;
    let mut i: usize = 0;
    while i < 8
        invariant
            b@.len() == 8,
            i <= 8,
            acc == be_value(b@.take(i as int)),
            0 <= acc < pow256(i as nat),
            pow256(8) == 0x1_0000_0000_0000_0000,
        decreases 8 - i,
    {
        proof {
            lemma_pow256_mono(i as nat, 7);
            reveal_with_fuel(pow256, 9);
            assert(b@.take(i + 1).drop_last() =~= b@.take(i as int));
            assert(b@.take(i + 1).last() == b@[i as int]);
            lemma_be_value_bound(b@.take(i + 1));
        }
        acc = acc * 256 + (b[i] as u64);
        i += 1;
    }
    proof {
        assert(b@.take(8) =~= b@);
    }
    acc
}

/// Write an unsigned integer as eight big-endian bytes: the data-plane
/// request framing on the client's side.
pub fn u64_to_be_bytes(x: u64) -> (r: Vec<u8>)
    ensures
        r@.len() == 8,
        be_value(r@) == x,
{
    let b7: u8 = (x % 256) as u8;
    let x1: u64 = x / 256;
    let b6: u8 = (x1 % 256) as u8;
    let x2: u64 = x1 / 256;
    let b5: u8 = (x2 % 256) as u8;
    let x3: u64 = x2 / 256;
    let b4: u8 = (x3 % 256) as u8;
    let x4: u64 = x3 / 256;
    let b3: u8 = (x4 % 256) as u8;
    let x5: u64 = x4 / 256;
    let b2: u8 = (x5 % 256) as u8;
    let x6: u64 = x5 / 256;
    let b1: u8 = (x6 % 256) as u8;
    let x7: u64 = x6 / 256;
    let b0: u8 = (x7 % 256) as u8;
    let r = vec![b0, b1, b2, b3, b4, b5, b6, b7];
    proof {
        assert(x7 < 256);
        let s = r@;
        assert(s =~= seq![b0, b1, b2, b3, b4, b5, b6, b7]);
        assert(s.drop_last() =~= seq![b0, b1, b2, b3, b4, b5, b6]);
        assert(s.drop_last().drop_last() =~= seq![b0, b1, b2, b3, b4, b5]);
        assert(s.drop_last().drop_last().drop_last() =~= seq![b0, b1, b2, b3, b4]);
        assert(s.drop_last().drop_last().drop_last().drop_last() =~= seq![b0, b1, b2, b3]);
        assert(s.drop_last().drop_last().drop_last().drop_last().drop_last() =~= seq![
            b0,
            b1,
            b2,
        ]);
        assert(s.drop_last().drop_last().drop_last().drop_last().drop_last().drop_last() =~= seq![
            b0,
            b1,
        ]);
        assert(s.drop_last().drop_last().drop_last().drop_last().drop_last().drop_last().drop_last()
            =~= seq![b0]);
        assert(seq![b0].drop_last() =~= Seq::<u8>::empty());
        assert(be_value(Seq::<u8>::empty()) == 0);
        assert(be_value(seq![b0]) == b0);
        assert(b0 == x7);
        assert(be_value(seq![b0, b1]) == be_value(seq![b0]) * 256 + b1);
        assert(be_value(seq![b0, b1]) == x6);
        assert(be_value(seq![b0, b1, b2]) == be_value(seq![b0, b1]) * 256 + b2);
        assert(be_value(seq![b0, b1, b2]) == x5);
        assert(be_value(seq![b0, b1, b2, b3]) == be_value(seq![b0, b1, b2]) * 256 + b3);
        assert(be_value(seq![b0, b1, b2, b3]) == x4);
        assert(be_value(seq![b0, b1, b2, b3, b4]) == be_value(seq![b0, b1, b2, b3]) * 256 + b4);
        assert(be_value(seq![b0, b1, b2, b3, b4]) == x3);
        assert(be_value(seq![b0, b1, b2, b3, b4, b5]) == be_value(seq![b0, b1, b2, b3, b4]) * 256
            + b5);
        assert(be_value(seq![b0, b1, b2, b3, b4, b5]) == x2);
        assert(be_value(seq![b0, b1, b2, b3, b4, b5, b6]) == be_value(seq![b0, b1, b2, b3, b4, b5])
            * 256 + b6);
        assert(be_value(seq![b0, b1, b2, b3, b4, b5, b6]) == x1);
        assert(be_value(s) == be_value(seq![b0, b1, b2, b3, b4, b5, b6]) * 256 + b7);
        assert(be_value(s) == x);
    }
    r
}

/// Serve one data-plane request: exactly eight bytes name a download
/// handle; the reply is the addressed blob, or nothing for a short request,
/// a stale generation, or a slot beyond the table.
pub fn data_plane_reply<'a>(c: &'a Catalog, request: &Vec<u8>) -> (r: Option<&'a Vec<u8>>)
    ensures
        request@.len() != 8 ==> r is None,
        request@.len() == 8 ==> {
            &&& (r is Some <==> handle_generation(be_value(request@) as u64) == c.generation
                && handle_slot(be_value(request@) as u64) < c.table@.len())
            &&& (r matches Some(b) ==> b@ == c.table@[handle_slot(
                be_value(request@) as u64,
            )]@)
        },
{
    if request.len() != 8 {
        return None;
    }
    let h = u64_from_be_bytes(request);
    proof {
        lemma_be_value_bound(request@);
        reveal_with_fuel(pow256, 9);
    }
    lookup(c, h)
}

} // verus!
