//! The tray indicator: its icon, its texts and its menu.

use vstd::prelude::*;
use vstd::string::*;

use crate::text::{decimal, decimal_string, opt_text, opt_view, same};

verus! {

/// The icon while a tunnel is up.
pub const ICON_CONNECTED: &'static str = "neutron-vpn-connected";

/// The icon while none is.
pub const ICON_DISCONNECTED: &'static str = "neutron-vpn-disconnected";

/// The icon of a state.
pub fn status_icon(connected: bool) -> (r: &'static str)
    ensures
        r@ == (if connected {
            ICON_CONNECTED@
        } else {
            ICON_DISCONNECTED@
        }),
{
    if connected {
        ICON_CONNECTED
    } else {
        ICON_DISCONNECTED
    }
}

// ---------------------------------------------------------------------------
// Pixels
// ---------------------------------------------------------------------------

/// A colour without the alpha that it was multiplied with, as far as a byte goes;
/// nothing where the pixel is transparent.
pub open spec fn straight_of(channel: u8, alpha: u8) -> u8 {
    if alpha == 0 {
        0
    } else {
        let v = channel as int * 255 / alpha as int;
        if v > 255 {
            255
        } else {
            v as u8
        }
    }
}

/// Pixels as the tray takes them: alpha, red, green and blue, from pixels in the
/// order blue, green, red and alpha whose colours were multiplied with alpha.
/// Bytes after the last whole pixel are left out.
pub open spec fn argb_of(bgra: Seq<u8>) -> Seq<u8> {
    Seq::new(
        (bgra.len() / 4 * 4) as nat,
        |i: int|
            {
                let p = i / 4 * 4;
                let a = bgra[p + 3];
                if i % 4 == 0 {
                    a
                } else {
                    straight_of(bgra[p + 3 - i % 4], a)
                }
            },
    )
}

/// A colour without the alpha that it was multiplied with.
fn straight(channel: u8, alpha: u8) -> (r: u8)
    ensures
        r == straight_of(channel, alpha),
{
    if alpha == 0 {
        return 0;
    }
    let v: u32 = (channel as u32 * 255) / (alpha as u32);
    if v > 255 {
        255
    } else {
        v as u8
    }
}

/// Pixels as the tray takes them. The colours are divided by alpha again, since a
/// rim that stays multiplied shows as a dark halo on a light panel.
pub fn argb32_from_premultiplied_bgra(bgra: &[u8]) -> (r: Vec<u8>)
    ensures
        r@ == argb_of(bgra@),
{
    let mut r: Vec<u8> = Vec::new();
    let pixels: usize = bgra.len() / 4;
    let mut k: usize = 0;
    while k < pixels
        invariant
            k <= pixels,
            pixels == bgra.len() / 4,
            r@ == argb_of(bgra@).take(4 * k),
        decreases pixels - k,
    {
        let p: usize = 4 * k;
        let a = bgra[p + 3];
        let red = straight(bgra[p + 2], a);
        let green = straight(bgra[p + 1], a);
        let blue = straight(bgra[p], a);
        let ghost before = r@;
        r.push(a);
        r.push(red);
        r.push(green);
        r.push(blue);
        proof {
            let all = argb_of(bgra@);
            assert(all[p as int] == a);
            assert(all[p + 1] == red);
            assert(all[p + 2] == green);
            assert(all[p + 3] == blue);
            assert(r@ =~= all.take(4 * (k + 1)));
        }
        k += 1;
    }
    assert(argb_of(bgra@).take(4 * k) =~= argb_of(bgra@));
    r
}

/// Every pixel keeps its place and its alpha, an opaque pixel keeps its colours,
/// and a transparent one has none.
pub proof fn law_pixels(bgra: Seq<u8>, k: int)
    requires
        0 <= k < bgra.len() / 4,
    ensures
        argb_of(bgra).len() == bgra.len() / 4 * 4,
        argb_of(bgra)[4 * k] == bgra[4 * k + 3],
        bgra[4 * k + 3] == 255 ==> argb_of(bgra)[4 * k + 1] == bgra[4 * k + 2] && argb_of(bgra)[4
            * k + 2] == bgra[4 * k + 1] && argb_of(bgra)[4 * k + 3] == bgra[4 * k],
        bgra[4 * k + 3] == 0 ==> argb_of(bgra)[4 * k + 1] == 0 && argb_of(bgra)[4 * k + 2] == 0
            && argb_of(bgra)[4 * k + 3] == 0,
{
    let (b, g, r, a) = (bgra[4 * k], bgra[4 * k + 1], bgra[4 * k + 2], bgra[4 * k + 3]);
    assert(argb_of(bgra)[4 * k + 1] == straight_of(r, a));
    assert(argb_of(bgra)[4 * k + 2] == straight_of(g, a));
    assert(argb_of(bgra)[4 * k + 3] == straight_of(b, a));
    assert(straight_of(r, 255) == r && straight_of(g, 255) == g && straight_of(b, 255) == b);
}

// ---------------------------------------------------------------------------
// Texts
// ---------------------------------------------------------------------------

/// The name that is shown for an active profile.
pub open spec fn shown_name(profile: Option<Seq<char>>) -> Seq<char> {
    match profile {
        Some(name) => name,
        None => "Connected"@,
    }
}

/// The text of the tooltip.
pub open spec fn tooltip_of(
    connected: bool,
    profile: Option<Seq<char>>,
    port: Option<u16>,
) -> Seq<char> {
    if connected {
        "Connected: "@ + shown_name(profile) + (match port {
            Some(p) => "\nForwarded port: "@ + decimal(p as nat),
            None => Seq::empty(),
        })
    } else {
        "Disconnected"@
    }
}

/// The text of the tooltip.
pub fn tooltip(connected: bool, profile: Option<&str>, port: Option<u16>) -> (r: String)
    ensures
        r@ == tooltip_of(connected, opt_view(profile), port),
{
    if !connected {
        return "Disconnected".to_owned();
    }
    let name = match profile {
        Some(name) => name,
        None => "Connected",
    };
    let mut r = "Connected: ".to_owned().concat(name);
    match port {
        Some(p) => {
            let n = decimal_string(p as u128);
            r.append("\nForwarded port: ");
            r.append(n.as_str());
        },
        None => {},
    }
    assert(r@ =~= tooltip_of(connected, opt_view(profile), port));
    r
}

/// The status among the background applications.
pub open spec fn background_of(
    connected: bool,
    profile: Option<Seq<char>>,
    port: Option<u16>,
) -> Seq<char> {
    if connected {
        "Connected: "@ + shown_name(profile) + (match port {
            Some(p) => " (Port: "@ + decimal(p as nat) + ")"@,
            None => Seq::empty(),
        })
    } else {
        "Disconnected"@
    }
}

/// The status among the background applications.
pub fn background_message(connected: bool, profile: Option<&str>, port: Option<u16>) -> (r: String)
    ensures
        r@ == background_of(connected, opt_view(profile), port),
{
    if !connected {
        return "Disconnected".to_owned();
    }
    let name = match profile {
        Some(name) => name,
        None => "Connected",
    };
    let mut r = "Connected: ".to_owned().concat(name);
    match port {
        Some(p) => {
            let n = decimal_string(p as u128);
            r.append(" (Port: ");
            r.append(n.as_str());
            r.append(")");
        },
        None => {},
    }
    assert(r@ =~= background_of(connected, opt_view(profile), port));
    r
}

// ---------------------------------------------------------------------------
// The menu
// ---------------------------------------------------------------------------

/// An entry of the menu.
#[derive(Debug)]
pub enum MenuEntry {
    /// The menu itself.
    Root,
    /// An item that can be chosen.
    Item(String),
    /// A line between items.
    Separator,
}

/// An entry of the menu, as text.
#[verifier::ext_equal]
pub enum EntryView {
    Root,
    Item(Seq<char>),
    Separator,
}

impl View for MenuEntry {
    type V = EntryView;

    open spec fn view(&self) -> EntryView {
        match self {
            MenuEntry::Root => EntryView::Root,
            MenuEntry::Item(label) => EntryView::Item(label@),
            MenuEntry::Separator => EntryView::Separator,
        }
    }
}

/// An entry that may be there, as text.
pub open spec fn opt_entry(o: Option<MenuEntry>) -> Option<EntryView> {
    match o {
        Some(e) => Some(e@),
        None => None,
    }
}

/// The entry of an identifier. The port has an entry only while one is known.
pub open spec fn entry_of(
    id: i32,
    connected: bool,
    profile: Option<Seq<char>>,
    port: Option<u16>,
) -> Option<EntryView> {
    if id == 0 {
        Some(EntryView::Root)
    } else if id == 1 {
        Some(EntryView::Item("Show Neutron VPN"@))
    } else if id == 2 {
        Some(
            EntryView::Item(
                if connected {
                    match profile {
                        Some(name) => "Disconnect ("@ + name + ")"@,
                        None => "Disconnect"@,
                    }
                } else {
                    "Connect"@
                },
            ),
        )
    } else if id == 3 {
        Some(EntryView::Separator)
    } else if id == 4 {
        Some(EntryView::Item("Quit"@))
    } else if id == 5 && port is Some {
        Some(EntryView::Item("Port Forwarding: "@ + decimal(port->0 as nat) + " (Copy)"@))
    } else {
        None
    }
}

/// The entry of an identifier.
pub fn menu_entry(id: i32, connected: bool, profile: Option<&str>, port: Option<u16>) -> (r: Option<
    MenuEntry,
>)
    ensures
        opt_entry(r) == entry_of(id, connected, opt_view(profile), port),
{
    match id {
        0 => Some(MenuEntry::Root),
        1 => Some(MenuEntry::Item("Show Neutron VPN".to_owned())),
        2 => {
            let label = if connected {
                match profile {
                    Some(name) => "Disconnect (".to_owned().concat(name).concat(")"),
                    None => "Disconnect".to_owned(),
                }
            } else {
                "Connect".to_owned()
            };
            Some(MenuEntry::Item(label))
        },
        3 => Some(MenuEntry::Separator),
        4 => Some(MenuEntry::Item("Quit".to_owned())),
        5 => match port {
            Some(p) => {
                let n = decimal_string(p as u128);
                Some(
                    MenuEntry::Item(
                        "Port Forwarding: ".to_owned().concat(n.as_str()).concat(" (Copy)"),
                    ),
                )
            },
            None => None,
        },
        _ => None,
    }
}

/// The identifiers of the items, in the order in which they are shown.
pub open spec fn shown_ids() -> Seq<i32> {
    seq![1i32, 5i32, 2i32, 3i32, 4i32]
}

/// The entries among identifiers, with those that have none left out.
pub open spec fn entries_of(
    ids: Seq<i32>,
    connected: bool,
    profile: Option<Seq<char>>,
    port: Option<u16>,
) -> Seq<(i32, EntryView)>
    decreases ids.len(),
{
    if ids.len() == 0 {
        Seq::empty()
    } else {
        let before = entries_of(ids.drop_last(), connected, profile, port);
        match entry_of(ids.last(), connected, profile, port) {
            Some(e) => before.push((ids.last(), e)),
            None => before,
        }
    }
}

/// Entries with their identifiers, as texts.
pub open spec fn entry_views(list: Seq<(i32, MenuEntry)>) -> Seq<(i32, EntryView)> {
    list.map_values(|e: (i32, MenuEntry)| (e.0, e.1@))
}

/// The entries among identifiers.
fn collect(ids: &[i32], connected: bool, profile: Option<&str>, port: Option<u16>) -> (r: Vec<
    (i32, MenuEntry),
>)
    ensures
        entry_views(r@) == entries_of(ids@, connected, opt_view(profile), port),
{
    let mut r: Vec<(i32, MenuEntry)> = Vec::new();
    let mut i: usize = 0;
    assert(ids@.take(0) =~= Seq::<i32>::empty());
    assert(entry_views(r@) =~= Seq::<(i32, EntryView)>::empty());
    while i < ids.len()
        invariant
            i <= ids.len(),
            entry_views(r@) == entries_of(
                ids@.take(i as int),
                connected,
                opt_view(profile),
                port,
            ),
        decreases ids.len() - i,
    {
        proof {
            let next = ids@.take(i as int + 1);
            assert(next.drop_last() =~= ids@.take(i as int));
            assert(next.last() == ids@[i as int]);
        }
        let id = ids[i];
        match menu_entry(id, connected, profile, port) {
            Some(entry) => {
                let ghost before = entry_views(r@);
                let ghost pair = (id, entry@);
                r.push((id, entry));
                assert(entry_views(r@) =~= before.push(pair));
            },
            None => {},
        }
        i += 1;
    }
    assert(ids@.take(i as int) =~= ids@);
    r
}

/// The items of the menu, in the order in which they are shown.
pub fn menu_layout(connected: bool, profile: Option<&str>, port: Option<u16>) -> (r: Vec<
    (i32, MenuEntry),
>)
    ensures
        entry_views(r@) == entries_of(shown_ids(), connected, opt_view(profile), port),
{
    let ids = [1i32, 5i32, 2i32, 3i32, 4i32];
    let list: &[i32] = &ids;
    assert(list@ =~= shown_ids());
    collect(list, connected, profile, port)
}

/// The entries that are asked for; all of them where none is named.
pub fn menu_group(
    requested: &[i32],
    connected: bool,
    profile: Option<&str>,
    port: Option<u16>,
) -> (r: Vec<(i32, MenuEntry)>)
    ensures
        entry_views(r@) == entries_of(
            if requested@.len() > 0 {
                requested@
            } else {
                seq![0i32] + shown_ids()
            },
            connected,
            opt_view(profile),
            port,
        ),
{
    if requested.len() > 0 {
        return collect(requested, connected, profile, port);
    }
    let ids = [0i32, 1i32, 5i32, 2i32, 3i32, 4i32];
    let list: &[i32] = &ids;
    assert(list@ =~= seq![0i32] + shown_ids());
    collect(list, connected, profile, port)
}

/// What choosing an item does.
#[derive(Debug, Clone, Copy, PartialEq, Eq, Structural)]
pub enum MenuAction {
    ShowWindow,
    Disconnect,
    ConnectRandom,
    Quit,
    CopyPort(u16),
    Nothing,
}

/// What choosing an item does.
pub open spec fn action_of(id: i32, connected: bool, port: Option<u16>) -> MenuAction {
    if id == 1 {
        MenuAction::ShowWindow
    } else if id == 2 && connected {
        MenuAction::Disconnect
    } else if id == 2 {
        MenuAction::ConnectRandom
    } else if id == 4 {
        MenuAction::Quit
    } else if id == 5 && port is Some {
        MenuAction::CopyPort(port->0)
    } else {
        MenuAction::Nothing
    }
}

/// What choosing an item does.
pub fn menu_action(id: i32, connected: bool, port: Option<u16>) -> (r: MenuAction)
    ensures
        r == action_of(id, connected, port),
{
    match id {
        1 => MenuAction::ShowWindow,
        2 => if connected {
            MenuAction::Disconnect
        } else {
            MenuAction::ConnectRandom
        },
        4 => MenuAction::Quit,
        5 => match port {
            Some(p) => MenuAction::CopyPort(p),
            None => MenuAction::Nothing,
        },
        _ => MenuAction::Nothing,
    }
}

/// An entry does something exactly where it is an item that can be chosen.
pub proof fn law_items_act(
    id: i32,
    connected: bool,
    profile: Option<Seq<char>>,
    port: Option<u16>,
)
    ensures
        (entry_of(id, connected, profile, port) matches Some(EntryView::Item(_))) == (action_of(
            id,
            connected,
            port,
        ) != MenuAction::Nothing),
{
}

// ---------------------------------------------------------------------------
// Calls
// ---------------------------------------------------------------------------

/// What a call of the tray asks for.
#[derive(Debug, Clone, Copy, PartialEq, Eq, Structural)]
pub enum ItemCall {
    ShowWindow,
    Nothing,
    Unknown,
}

/// What a call of the tray asks for, by its name.
pub fn item_call(method: &str) -> (r: ItemCall)
    ensures
        r == (if method@ == "Activate"@ || method@ == "SecondaryActivate"@ || method@
            == "ContextMenu"@ {
            ItemCall::ShowWindow
        } else if method@ == "Scroll"@ {
            ItemCall::Nothing
        } else {
            ItemCall::Unknown
        }),
{
    if same(method, "Activate") || same(method, "SecondaryActivate") || same(
        method,
        "ContextMenu",
    ) {
        ItemCall::ShowWindow
    } else if same(method, "Scroll") {
        ItemCall::Nothing
    } else {
        ItemCall::Unknown
    }
}

/// What a call of the menu asks for.
#[derive(Debug, Clone, Copy, PartialEq, Eq, Structural)]
pub enum MenuCall {
    Layout,
    Group,
    Property,
    Event,
    AboutToShow,
    Unknown,
}

/// What a call of the menu asks for, by its name.
pub fn menu_call(method: &str) -> (r: MenuCall)
    ensures
        r == (if method@ == "GetLayout"@ {
            MenuCall::Layout
        } else if method@ == "GetGroupProperties"@ {
            MenuCall::Group
        } else if method@ == "GetProperty"@ {
            MenuCall::Property
        } else if method@ == "Event"@ {
            MenuCall::Event
        } else if method@ == "AboutToShow"@ {
            MenuCall::AboutToShow
        } else {
            MenuCall::Unknown
        }),
{
    if same(method, "GetLayout") {
        MenuCall::Layout
    } else if same(method, "GetGroupProperties") {
        MenuCall::Group
    } else if same(method, "GetProperty") {
        MenuCall::Property
    } else if same(method, "Event") {
        MenuCall::Event
    } else if same(method, "AboutToShow") {
        MenuCall::AboutToShow
    } else {
        MenuCall::Unknown
    }
}

/// A value of a property of the tray.
#[derive(Debug)]
pub enum PropertyValue {
    Text(&'static str),
    Number(i32),
    Flag(bool),
    ObjectPath(&'static str),
    /// The directory of the icons.
    ThemePath,
    /// The picture of the state.
    Pixmap { connected: bool },
    /// No picture.
    NoPixmap,
    ToolTip { title: &'static str, body: String },
}

/// Whether a value is that of a property. The name of the icon is empty on
/// purpose: the tray then takes the picture.
pub open spec fn is_property(
    name: Seq<char>,
    connected: bool,
    profile: Option<Seq<char>>,
    port: Option<u16>,
    value: PropertyValue,
) -> bool {
    if name == "Category"@ {
        value matches PropertyValue::Text(t) && t@ == "ApplicationStatus"@
    } else if name == "Id"@ {
        value matches PropertyValue::Text(t) && t@ == "neutron-vpn"@
    } else if name == "Title"@ {
        value matches PropertyValue::Text(t) && t@ == "Neutron VPN"@
    } else if name == "Status"@ {
        value matches PropertyValue::Text(t) && t@ == "Active"@
    } else if name == "WindowId"@ {
        value == PropertyValue::Number(0)
    } else if name == "IconThemePath"@ {
        value is ThemePath
    } else if name == "ItemIsMenu"@ {
        value == PropertyValue::Flag(false)
    } else if name == "Menu"@ {
        value matches PropertyValue::ObjectPath(t) && t@ == "/MenuBar"@
    } else if name == "IconPixmap"@ {
        value == (PropertyValue::Pixmap { connected })
    } else if name == "OverlayIconPixmap"@ || name == "AttentionIconPixmap"@ {
        value is NoPixmap
    } else if name == "ToolTip"@ {
        value matches PropertyValue::ToolTip { title, body } && title@ == "Neutron VPN"@ && body@
            == tooltip_of(connected, profile, port)
    } else {
        value matches PropertyValue::Text(t) && t@ == ""@
    }
}

/// The value of a property of the tray.
pub fn item_property(name: &str, connected: bool, profile: Option<&str>, port: Option<u16>) -> (r:
    PropertyValue)
    ensures
        is_property(name@, connected, opt_view(profile), port, r),
{
    if same(name, "Category") {
        PropertyValue::Text("ApplicationStatus")
    } else if same(name, "Id") {
        PropertyValue::Text("neutron-vpn")
    } else if same(name, "Title") {
        PropertyValue::Text("Neutron VPN")
    } else if same(name, "Status") {
        PropertyValue::Text("Active")
    } else if same(name, "WindowId") {
        PropertyValue::Number(0)
    } else if same(name, "IconThemePath") {
        PropertyValue::ThemePath
    } else if same(name, "ItemIsMenu") {
        PropertyValue::Flag(false)
    } else if same(name, "Menu") {
        PropertyValue::ObjectPath("/MenuBar")
    } else if same(name, "IconPixmap") {
        PropertyValue::Pixmap { connected }
    } else if same(name, "OverlayIconPixmap") || same(name, "AttentionIconPixmap") {
        PropertyValue::NoPixmap
    } else if same(name, "ToolTip") {
        PropertyValue::ToolTip { title: "Neutron VPN", body: tooltip(connected, profile, port) }
    } else {
        PropertyValue::Text("")
    }
}

// ---------------------------------------------------------------------------
// State
// ---------------------------------------------------------------------------

/// What the tray shows.
#[derive(Debug)]
pub struct IndicatorState {
    pub connected: bool,
    pub active_profile: Option<String>,
    pub active_port: Option<u16>,
    /// Counts the changes, so that the tray reads the menu again.
    pub menu_revision: u32,
}

impl IndicatorState {
    /// The state before anything is known.
    pub fn new() -> (r: IndicatorState)
        ensures
            !r.connected,
            r.active_profile is None,
            r.active_port is None,
            r.menu_revision == 1,
    {
        IndicatorState {
            connected: false,
            active_profile: None,
            active_port: None,
            menu_revision: 1,
        }
    }

    /// Take over a new state. The revision of the menu changes every time.
    pub fn update_status(
        &mut self,
        connected: bool,
        active_profile: Option<&str>,
        forwarded_port: Option<u16>,
    )
        ensures
            final(self).connected == connected,
            opt_text(final(self).active_profile) == opt_view(active_profile),
            final(self).active_port == forwarded_port,
            final(self).menu_revision == (if old(self).menu_revision == u32::MAX {
                0
            } else {
                (old(self).menu_revision + 1) as u32
            }),
    {
        self.connected = connected;
        self.active_profile = match active_profile {
            Some(name) => Some(name.to_owned()),
            None => None,
        };
        self.active_port = forwarded_port;
        self.menu_revision = if self.menu_revision == u32::MAX {
            0
        } else {
            self.menu_revision + 1
        };
    }
}

/// The items of the menu do what they say: the second leaves the tunnel that is up, or
/// picks one where none is.
pub proof fn law_menu_items(connected: bool, port: Option<u16>, forwarded: u16, id: i32)
    ensures
        action_of(1, connected, port) == MenuAction::ShowWindow,
        action_of(2, true, port) == MenuAction::Disconnect,
        action_of(2, false, port) == MenuAction::ConnectRandom,
        action_of(4, connected, port) == MenuAction::Quit,
        action_of(5, connected, Some(forwarded)) == MenuAction::CopyPort(forwarded),
        action_of(5, connected, None) == MenuAction::Nothing,
        id != 1 && id != 2 && id != 4 && id != 5 ==> action_of(id, connected, port)
            == MenuAction::Nothing,
{
}

} // verus!
