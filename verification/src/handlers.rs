//! Built-in cleanup handlers: removal of things that are not plain paths,
//! through their own tool's supported command. Manifests name a handler from
//! the fixed set below and cannot bring a command of their own.

use vstd::prelude::*;
use crate::exec::{display_argv, shown_argv};
use crate::path::{join, join_exec};
use crate::text::{chars_of, str_eq, string_of};

verus! {

/// One item found by a handler.
pub struct HandlerItem {
    /// The identifier handed back for removal (a device UDID, say).
    pub id: String,
    /// The name shown in the item list.
    pub name: String,
    /// Size in bytes, as the tool reports it.
    pub size: Option<u64>,
    /// Where the item lies on disk, shown for context; never what is removed.
    pub display_path: Option<String>,
    /// More context shown under the item.
    pub detail: Option<String>,
    /// Whether the item is still in use, so that removing it costs something.
    pub in_use: bool,
}

/// What a handler item holds, as plain values.
pub struct HandlerItemView {
    pub id: Seq<char>,
    pub name: Seq<char>,
    pub size: Option<u64>,
    pub display_path: Option<Seq<char>>,
    pub detail: Option<Seq<char>>,
    pub in_use: bool,
}

pub open spec fn opt_view(o: Option<String>) -> Option<Seq<char>> {
    match o {
        Some(s) => Some(s@),
        None => None,
    }
}

impl View for HandlerItem {
    type V = HandlerItemView;

    open spec fn view(&self) -> HandlerItemView {
        HandlerItemView {
            id: self.id@,
            name: self.name@,
            size: self.size,
            display_path: opt_view(self.display_path),
            detail: opt_view(self.detail),
            in_use: self.in_use,
        }
    }
}

/// A copy of an optional string.
pub fn opt_clone_pub(o: &Option<String>) -> (r: Option<String>)
    ensures
        opt_view(r) == opt_view(*o),
{
    match o {
        Some(s) => Some(s.clone()),
        None => None,
    }
}

/// A built-in integration with an outside tool.
pub trait Handler {
    /// The id of the handler.
    spec fn handler_id(&self) -> Seq<char>;

    /// The command that removes an item.
    spec fn removal_argv(&self, item_id: Seq<char>) -> Seq<Seq<char>>;

    /// The id that manifests use, namespaced by tool.
    fn id(&self) -> (r: &'static str)
        ensures
            r@ == self.handler_id(),
    ;

    /// The exact command that removes `item_id`, shown before the user
    /// confirms: what is shown is what runs.
    fn describe_removal(&self, item_id: &str) -> (r: String)
        ensures
            r@ == shown_argv(self.removal_argv(item_id@)),
    ;
}

/// The handlers compiled into the library.
#[derive(Debug, Clone, Copy, PartialEq, Eq, Structural)]
pub enum HandlerKind {
    /// Simulator devices whose runtime is gone.
    SimulatorDevices,
    /// Installed simulator runtimes.
    SimulatorRuntimes,
}

/// The id of each handler.
pub open spec fn kind_id(k: HandlerKind) -> Seq<char> {
    match k {
        HandlerKind::SimulatorDevices => "xcode.simulator-devices"@,
        HandlerKind::SimulatorRuntimes => "xcode.simulator-runtimes"@,
    }
}

/// The command that removes an item of each handler.
pub open spec fn kind_removal_argv(k: HandlerKind, item_id: Seq<char>) -> Seq<Seq<char>> {
    match k {
        HandlerKind::SimulatorDevices => seq!["xcrun"@, "simctl"@, "delete"@, item_id],
        HandlerKind::SimulatorRuntimes => seq!["xcrun"@, "simctl"@, "runtime"@, "delete"@, item_id],
    }
}

/// Every handler, in registration order.
pub open spec fn registered() -> Seq<HandlerKind> {
    seq![HandlerKind::SimulatorDevices, HandlerKind::SimulatorRuntimes]
}

/// The first registered handler with id `id`.
pub open spec fn spec_get(id: Seq<char>) -> Option<HandlerKind> {
    if id == kind_id(HandlerKind::SimulatorDevices) {
        Some(HandlerKind::SimulatorDevices)
    } else if id == kind_id(HandlerKind::SimulatorRuntimes) {
        Some(HandlerKind::SimulatorRuntimes)
    } else {
        None
    }
}

impl Handler for HandlerKind {
    open spec fn handler_id(&self) -> Seq<char> {
        kind_id(*self)
    }

    open spec fn removal_argv(&self, item_id: Seq<char>) -> Seq<Seq<char>> {
        kind_removal_argv(*self, item_id)
    }

    fn id(&self) -> (r: &'static str) {
        match self {
            HandlerKind::SimulatorDevices => "xcode.simulator-devices",
            HandlerKind::SimulatorRuntimes => "xcode.simulator-runtimes",
        }
    }

    fn describe_removal(&self, item_id: &str) -> (r: String) {
        let mut argv: Vec<&str> = Vec::new();
        argv.push("xcrun");
        argv.push("simctl");
        match self {
            HandlerKind::SimulatorDevices => {},
            HandlerKind::SimulatorRuntimes => argv.push("runtime"),
        }
        argv.push("delete");
        argv.push(item_id);
        proof {
            assert(crate::exec::argv_view(argv@) =~= kind_removal_argv(*self, item_id@));
        }
        display_argv(argv.as_slice())
    }
}

/// The handler with manifest id `id`.
pub fn get(id: &str) -> (r: Option<HandlerKind>)
    ensures
        r == spec_get(id@),
{
    if str_eq(id, "xcode.simulator-devices") {
        Some(HandlerKind::SimulatorDevices)
    } else if str_eq(id, "xcode.simulator-runtimes") {
        Some(HandlerKind::SimulatorRuntimes)
    } else {
        None
    }
}

/// The registered spelling of a handler id, for holding as `&'static str`.
pub fn resolve_id(id: &str) -> (r: Option<&'static str>)
    ensures
        match (spec_get(id@), r) {
            (Some(k), Some(s)) => s@ == kind_id(k),
            (None, None) => true,
            _ => false,
        },
{
    match get(id) {
        Some(k) => Some(k.id()),
        None => None,
    }
}

/// The ids of all handlers, in registration order.
pub fn all_ids() -> (r: Vec<&'static str>)
    ensures
        r@.len() == registered().len(),
        forall|i: int| 0 <= i < r@.len() ==> #[trigger] r@[i]@ == kind_id(registered()[i]),
{
    let mut r: Vec<&'static str> = Vec::new();
    r.push(HandlerKind::SimulatorDevices.id());
    r.push(HandlerKind::SimulatorRuntimes.id());
    r
}

/// The ids of the handlers are pairwise distinct, and each resolves to
/// its handler.
pub proof fn lemma_handler_ids_unique()
    ensures
        forall|i: int, j: int| 0 <= i < registered().len() && 0 <= j < registered().len() && i != j
            ==> kind_id(#[trigger] registered()[i]) != kind_id(#[trigger] registered()[j]),
        forall|i: int| 0 <= i < registered().len() ==> spec_get(kind_id(#[trigger] registered()[i])) == Some(registered()[i]),
{
    reveal_strlit("xcode.simulator-devices");
    reveal_strlit("xcode.simulator-runtimes");
    assert("xcode.simulator-devices"@.len() != "xcode.simulator-runtimes"@.len());
}

/// The first component of every handler identity path.
pub const IDENTITY_PREFIX: &'static str = "freespace-handler";

/// The identity under which a handler item is selected: the relative path
/// `freespace-handler/<handler>/<item>`.
pub open spec fn spec_identity_path(handler_id: Seq<char>, item_id: Seq<char>) -> Seq<char> {
    join(join("freespace-handler"@, handler_id), item_id)
}

/// The synthetic path that keys a handler item in the path-based selection.
/// It is relative, so it never names a real target, which is absolute.
pub fn identity_path(handler_id: &str, item_id: &str) -> (r: String)
    ensures
        r@ == spec_identity_path(handler_id@, item_id@),
{
    let p = chars_of(IDENTITY_PREFIX);
    let h = chars_of(handler_id);
    let i = chars_of(item_id);
    let ph = join_exec(p.as_slice(), h.as_slice());
    let phi = join_exec(ph.as_slice(), i.as_slice());
    string_of(phi.as_slice())
}

/// A single path component that names an entry: non-empty, with no `/`.
pub open spec fn is_plain_component(s: Seq<char>) -> bool {
    s.len() > 0 && forall|k: int| 0 <= k < s.len() ==> #[trigger] s[k] != '/'
}

/// Identity paths are relative, namespaced and unambiguous: for plain
/// components they read `freespace-handler/<handler>/<item>`, start with no
/// `/`, and two of them are equal only for the same handler and item.
pub proof fn lemma_identity_path_shape(h: Seq<char>, i: Seq<char>, h2: Seq<char>, i2: Seq<char>)
    requires
        is_plain_component(h),
        is_plain_component(i),
        is_plain_component(h2),
        is_plain_component(i2),
    ensures
        spec_identity_path(h, i) == "freespace-handler"@ + seq!['/'] + h + seq!['/'] + i,
        spec_identity_path(h, i)[0] != '/',
        spec_identity_path(h, i) == spec_identity_path(h2, i2) ==> h == h2 && i == i2,
{
    reveal_strlit("freespace-handler");
    let pre = "freespace-handler"@;
    assert(pre.len() == 17);
    assert(pre.last() == 'r');
    assert(join(pre, h) == pre + seq!['/'] + h);
    assert((pre + seq!['/'] + h).last() == h.last());
    assert(spec_identity_path(h, i) =~= pre + seq!['/'] + h + seq!['/'] + i);
    assert(join(pre, h2) == pre + seq!['/'] + h2);
    assert((pre + seq!['/'] + h2).last() == h2.last());
    assert(spec_identity_path(h2, i2) =~= pre + seq!['/'] + h2 + seq!['/'] + i2);
    assert(spec_identity_path(h, i)[0] == pre[0]);
    if spec_identity_path(h, i) == spec_identity_path(h2, i2) {
        let t = h + seq!['/'] + i;
        let t2 = h2 + seq!['/'] + i2;
        assert(spec_identity_path(h, i).skip(18) =~= t);
        assert(spec_identity_path(h2, i2).skip(18) =~= t2);
        assert(t == t2);
        if h.len() < h2.len() {
            assert(t[h.len() as int] == '/');
            assert(t2[h.len() as int] == h2[h.len() as int]);
        } else if h2.len() < h.len() {
            assert(t2[h2.len() as int] == '/');
            assert(t[h2.len() as int] == h[h2.len() as int]);
        }
        assert(h =~= t.take(h.len() as int));
        assert(h2 =~= t2.take(h2.len() as int));
        assert(i =~= t.skip(h.len() as int + 1));
        assert(i2 =~= t2.skip(h2.len() as int + 1));
    }
}

} // verus!
