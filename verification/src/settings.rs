//! The settings page: which Roon output each FSCT device is assigned to.
use vstd::prelude::*;
use crate::config::{first_where, lemma_first_where, lemma_first_where_none};
use crate::ids::{
    device_id_text, lemma_read_hyphenated, lemma_sorted_contains, parse_device_id, read_device_id,
    sorted_ids, uuid_hyphenated,
};
use crate::mapping::Mappings;
use crate::player::{DeviceId, DeviceInfo};
use crate::roon::{Output, OutputSetting};
use crate::table::{views_insert, KeyedTable};
use crate::text::{joined, owned, strip_prefix};

verus! {

/// Settings data: for each settings key (`device_` followed by a device id) the Roon
/// output chosen for that device, if any.
pub struct ExtensionSettings {
    pub device_outputs: KeyedTable<String, Option<OutputSetting>>,
}

impl ExtensionSettings {
    pub open spec fn wf(&self) -> bool {
        self.device_outputs.wf()
    }

    /// Settings with no device entries.
    pub fn new() -> (s: Self)
        ensures
            s.wf(),
            s.device_outputs@ == Map::<Seq<char>, Option<OutputSetting>>::empty(),
    {
        ExtensionSettings { device_outputs: KeyedTable::new() }
    }
}

impl Default for ExtensionSettings {
    fn default() -> (s: Self)
        ensures
            s.wf(),
            s.device_outputs@ == Map::<Seq<char>, Option<OutputSetting>>::empty(),
    {
        ExtensionSettings::new()
    }
}

/// The prefix of every device settings key.
pub open spec fn device_prefix() -> Seq<char> {
    "device_"@
}

/// The settings key of a device.
pub open spec fn spec_setting_key(id: DeviceId) -> Seq<char> {
    device_prefix() + uuid_hyphenated(id)
}

/// The settings key of a device: `device_` followed by its id.
pub fn setting_key(id: DeviceId) -> (key: String)
    ensures
        key@ == spec_setting_key(id),
{
    let text = device_id_text(id);
    joined("device_", text.as_str())
}

/// `s` starts with `p`.
pub open spec fn has_prefix(s: Seq<char>, p: Seq<char>) -> bool {
    p.len() <= s.len() && s.subrange(0, p.len() as int) == p
}

/// The device that a settings key names, if it is `device_` followed by a readable id.
pub open spec fn key_device(key: Seq<char>) -> Option<DeviceId> {
    if has_prefix(key, device_prefix()) {
        read_device_id(key.subrange(device_prefix().len() as int, key.len() as int))
    } else {
        None
    }
}

/// The mappings that settings entries stand for, entry by entry: a key naming a device
/// with a chosen output maps that output to the device; later entries win.
pub open spec fn spec_settings_to_mappings(entries: Seq<(Seq<char>, Option<OutputSetting>)>) -> Map<
    Seq<char>,
    DeviceId,
>
    decreases entries.len(),
{
    if entries.len() == 0 {
        Map::empty()
    } else {
        let m = spec_settings_to_mappings(entries.drop_last());
        let (key, choice) = entries.last();
        match (key_device(key), choice) {
            (Some(d), Some(o)) => m.insert(o.output_id@, d),
            _ => m,
        }
    }
}

/// Convert settings to mappings: output_id -> device_uuid.
pub fn settings_to_mappings(settings: &ExtensionSettings) -> (mappings: Mappings)
    requires
        settings.wf(),
    ensures
        mappings.wf(),
        mappings@ == spec_settings_to_mappings(settings.device_outputs.entry_views()),
{
    let mut mappings = Mappings::new();
    let entries = settings.device_outputs.as_vec();
    let ghost ev = settings.device_outputs.entry_views();
    let n = entries.len();
    let mut i: usize = 0;
    assert(ev.take(0) =~= Seq::<(Seq<char>, Option<OutputSetting>)>::empty());
    while i < n
        invariant
            n == entries@.len(),
            entries@ == settings.device_outputs.entries(),
            ev == settings.device_outputs.entry_views(),
            i <= n,
            mappings.wf(),
            mappings@ == spec_settings_to_mappings(ev.take(i as int)),
        decreases n - i,
    {
        assert(ev.take(i + 1).drop_last() =~= ev.take(i as int));
        assert(ev.take(i + 1).last() == (entries@[i as int].0@, entries@[i as int].1));
        let key: &String = &entries[i].0;
        let choice: &Option<OutputSetting> = &entries[i].1;
        // Extract device UUID from key (format: "device_{uuid}")
        match strip_prefix(key.as_str(), "device_") {
            Some(device_uuid_str) => {
                assert(device_uuid_str@ =~= key@.subrange(
                    device_prefix().len() as int,
                    key@.len() as int,
                ));
                let parsed = parse_device_id(device_uuid_str);
                proof {
                    if exists|u: DeviceId| device_uuid_str@ == #[trigger] uuid_hyphenated(u) {
                        let u = choose|u: DeviceId| device_uuid_str@ == #[trigger] uuid_hyphenated(u);
                        assert(parsed == Some(u));
                    }
                    assert(parsed == read_device_id(device_uuid_str@));
                }
                match parsed {
                    Some(device_uuid) => {
                        // If output is set, add mapping
                        match choice {
                            Some(output) => {
                                mappings.set(output.output_id.clone(), device_uuid);
                            },
                            None => {},
                        }
                    },
                    None => {},
                }
            },
            None => {},
        }
        i = i + 1;
    }
    assert(ev.take(n as int) =~= ev);
    mappings
}

/// Outputs with id `id`.
pub open spec fn output_with_id(id: Seq<char>) -> spec_fn(Output) -> bool {
    |o: Output| o.output_id@ == id
}

/// The first of `avail` with id `id`, if any.
pub open spec fn first_output(avail: Seq<Output>, id: Seq<char>) -> Option<Output> {
    match first_where(avail, output_with_id(id)) {
        Some(i) => Some(avail[i]),
        None => None,
    }
}

/// The first of `avail` with id `id`, if any.
fn find_output<'a>(avail: &'a [Output], id: &str) -> (r: Option<&'a Output>)
    ensures
        match r {
            Some(o) => first_output(avail@, id@) == Some(*o),
            None => first_output(avail@, id@) is None,
        },
{
    let n = avail.len();
    let mut i: usize = 0;
    while i < n
        invariant
            n == avail@.len(),
            i <= n,
            forall|j: int| 0 <= j < i ==> !output_with_id(id@)(#[trigger] avail@[j]),
        decreases n - i,
    {
        if crate::text::same_text(avail[i].output_id.as_str(), id) {
            proof {
                lemma_first_where(avail@, output_with_id(id@), i as int);
            }
            return Some(&avail[i]);
        }
        i = i + 1;
    }
    proof {
        lemma_first_where_none(avail@, output_with_id(id@));
    }
    None
}

/// The setting that chooses output `o`.
pub open spec fn setting_for(o: Output) -> OutputSetting {
    OutputSetting { name: o.display_name, output_id: o.output_id }
}

fn setting_for_output(o: &Output) -> (s: OutputSetting)
    ensures
        s == setting_for(*o),
{
    OutputSetting { name: o.display_name.clone(), output_id: o.output_id.clone() }
}

/// For each mapped device, the available output mapped to it, entry by entry (a later
/// mapping to the same device wins); mappings of unavailable outputs are skipped.
pub open spec fn spec_device_outputs(entries: Seq<(Seq<char>, DeviceId)>, avail: Seq<Output>) -> Seq<
    (DeviceId, Output),
>
    decreases entries.len(),
{
    if entries.len() == 0 {
        Seq::empty()
    } else {
        let acc = spec_device_outputs(entries.drop_last(), avail);
        let (output_id, device) = entries.last();
        match first_output(avail, output_id) {
            Some(o) => views_insert(acc, device, o),
            None => acc,
        }
    }
}

/// The settings entries for devices with their outputs: each device's key chooses its output.
pub open spec fn spec_settings_from(dev_outs: Seq<(DeviceId, Output)>) -> Map<
    Seq<char>,
    Option<OutputSetting>,
>
    decreases dev_outs.len(),
{
    if dev_outs.len() == 0 {
        Map::empty()
    } else {
        let (device, output) = dev_outs.last();
        spec_settings_from(dev_outs.drop_last()).insert(
            spec_setting_key(device),
            Some(setting_for(output)),
        )
    }
}

/// The settings entries for devices with their outputs, in order: each device's key
/// chooses its output.
pub open spec fn spec_settings_entries(dev_outs: Seq<(DeviceId, Output)>) -> Seq<
    (Seq<char>, Option<OutputSetting>),
>
    decreases dev_outs.len(),
{
    if dev_outs.len() == 0 {
        Seq::empty()
    } else {
        let (device, output) = dev_outs.last();
        views_insert(
            spec_settings_entries(dev_outs.drop_last()),
            spec_setting_key(device),
            Some(setting_for(output)),
        )
    }
}

/// Convert current mappings to settings structure: each mapped device whose output is
/// available gets an entry choosing that output.
pub fn mappings_to_settings(current_mappings: &Mappings, available_outputs: &[Output]) -> (settings:
    ExtensionSettings)
    requires
        current_mappings.wf(),
    ensures
        settings.wf(),
        settings.device_outputs@ == spec_settings_from(
            spec_device_outputs(current_mappings.pair_views(), available_outputs@),
        ),
        settings.device_outputs.entry_views() == spec_settings_entries(
            spec_device_outputs(current_mappings.pair_views(), available_outputs@),
        ),
{
    // Reverse mapping: device_uuid -> output
    let mut device_to_output: KeyedTable<DeviceId, Output> = KeyedTable::new();
    let pairs = current_mappings.pairs();
    let ghost pv = current_mappings.pair_views();
    let n = pairs.len();
    let mut i: usize = 0;
    assert(pv.take(0) =~= Seq::<(Seq<char>, DeviceId)>::empty());
    assert(device_to_output.entry_views() =~= Seq::<(DeviceId, Output)>::empty());
    while i < n
        invariant
            n == pairs@.len(),
            pairs@ == current_mappings.entries(),
            pv == current_mappings.pair_views(),
            i <= n,
            device_to_output.wf(),
            device_to_output.entry_views() == spec_device_outputs(
                pv.take(i as int),
                available_outputs@,
            ),
        decreases n - i,
    {
        assert(pv.take(i + 1).drop_last() =~= pv.take(i as int));
        assert(pv.take(i + 1).last() == (pairs@[i as int].0@, pairs@[i as int].1));
        match find_output(available_outputs, pairs[i].0.as_str()) {
            Some(output) => {
                device_to_output.insert(pairs[i].1, output.clone());
            },
            None => {},
        }
        i = i + 1;
    }
    assert(pv.take(n as int) =~= pv);

    // Create settings entries for all mapped devices
    let mut device_outputs: KeyedTable<String, Option<OutputSetting>> = KeyedTable::new();
    assert(device_outputs.entry_views() =~= Seq::<(Seq<char>, Option<OutputSetting>)>::empty());
    let dev_outs = device_to_output.as_vec();
    let ghost dv = device_to_output.entry_views();
    let m = dev_outs.len();
    let mut j: usize = 0;
    assert(dv.take(0) =~= Seq::<(DeviceId, Output)>::empty());
    while j < m
        invariant
            m == dev_outs@.len(),
            dev_outs@ == device_to_output.entries(),
            dv == device_to_output.entry_views(),
            j <= m,
            device_outputs.wf(),
            device_outputs@ == spec_settings_from(dv.take(j as int)),
            device_outputs.entry_views() == spec_settings_entries(dv.take(j as int)),
        decreases m - j,
    {
        assert(dv.take(j + 1).drop_last() =~= dv.take(j as int));
        assert(dv.take(j + 1).last() == (dev_outs@[j as int].0, dev_outs@[j as int].1));
        let key = setting_key(dev_outs[j].0);
        device_outputs.insert(key, Some(setting_for_output(&dev_outs[j].1)));
        j = j + 1;
    }
    assert(dv.take(m as int) =~= dv);
    ExtensionSettings { device_outputs }
}

/// A dropdown that chooses the Roon output of a device.
#[derive(Debug, PartialEq, Eq)]
pub struct OutputDropdown {
    pub title: String,
    pub subtitle: Option<String>,
    /// The settings key that the choice is stored under.
    pub setting: String,
}

/// An element of the settings page.
#[derive(Debug, PartialEq, Eq)]
pub enum Widget {
    Label { title: String, subtitle: Option<String> },
    Group { title: String, subtitle: Option<String>, collapsable: bool, items: Vec<OutputDropdown> },
}

/// The settings page: the settings it edits and the widgets it shows.
pub struct Layout {
    pub settings: ExtensionSettings,
    pub widgets: Vec<Widget>,
    pub has_error: bool,
}

/// A dropdown, with its texts as character sequences.
pub struct DropdownView {
    pub title: Seq<char>,
    pub subtitle: Option<Seq<char>>,
    pub setting: Seq<char>,
}

/// A widget, with its texts as character sequences.
pub enum WidgetView {
    Label { title: Seq<char>, subtitle: Option<Seq<char>> },
    Group {
        title: Seq<char>,
        subtitle: Option<Seq<char>>,
        collapsable: bool,
        items: Seq<DropdownView>,
    },
}

/// An optional text as a character sequence.
pub open spec fn opt_view(t: Option<String>) -> Option<Seq<char>> {
    match t {
        Some(s) => Some(s@),
        None => None,
    }
}

impl View for OutputDropdown {
    type V = DropdownView;

    open spec fn view(&self) -> DropdownView {
        DropdownView { title: self.title@, subtitle: opt_view(self.subtitle), setting: self.setting@ }
    }
}

/// The views of a sequence of dropdowns.
pub open spec fn dropdown_views(v: Seq<OutputDropdown>) -> Seq<DropdownView> {
    v.map_values(|d: OutputDropdown| d@)
}

impl View for Widget {
    type V = WidgetView;

    open spec fn view(&self) -> WidgetView {
        match self {
            Widget::Label { title, subtitle } => WidgetView::Label {
                title: title@,
                subtitle: opt_view(*subtitle),
            },
            Widget::Group { title, subtitle, collapsable, items } => WidgetView::Group {
                title: title@,
                subtitle: opt_view(*subtitle),
                collapsable: *collapsable,
                items: dropdown_views(items@),
            },
        }
    }
}

/// The views of a sequence of widgets.
pub open spec fn widget_views(v: Seq<Widget>) -> Seq<WidgetView> {
    v.map_values(|w: Widget| w@)
}

/// The detected devices by id (a later entry for the same id wins).
pub open spec fn device_infos(devices: Seq<DeviceInfo>) -> Map<DeviceId, DeviceInfo>
    decreases devices.len(),
{
    if devices.len() == 0 {
        Map::empty()
    } else {
        device_infos(devices.drop_last()).insert(devices.last().id, devices.last())
    }
}

/// The ids of the detected devices, in the order given.
pub open spec fn device_ids(devices: Seq<DeviceInfo>) -> Seq<DeviceId> {
    devices.map_values(|d: DeviceInfo| d.id)
}

/// The output id mapped to each device, entry by entry (a later mapping wins).
pub open spec fn spec_device_output_ids(entries: Seq<(String, DeviceId)>) -> Seq<(DeviceId, String)>
    decreases entries.len(),
{
    if entries.len() == 0 {
        Seq::empty()
    } else {
        let acc = spec_device_output_ids(entries.drop_last());
        views_insert(acc, entries.last().1, entries.last().0)
    }
}

/// Settings completed from the mappings: a device without an entry gets one choosing its
/// mapped output, when that output is available.
pub open spec fn spec_fill_settings(
    settings: Map<Seq<char>, Option<OutputSetting>>,
    dev_out: Seq<(DeviceId, String)>,
    avail: Seq<Output>,
) -> Map<Seq<char>, Option<OutputSetting>>
    decreases dev_out.len(),
{
    if dev_out.len() == 0 {
        settings
    } else {
        let acc = spec_fill_settings(settings, dev_out.drop_last(), avail);
        let (device, output_id) = dev_out.last();
        let key = spec_setting_key(device);
        if acc.contains_key(key) {
            acc
        } else {
            match first_output(avail, output_id@) {
                Some(o) => acc.insert(key, Some(setting_for(o))),
                None => acc,
            }
        }
    }
}

/// The values of `s` that are not in `excluded`, each once, in order of first occurrence.
pub open spec fn unique_not_in(s: Seq<DeviceId>, excluded: Seq<DeviceId>) -> Seq<DeviceId>
    decreases s.len(),
{
    if s.len() == 0 {
        Seq::empty()
    } else {
        let acc = unique_not_in(s.drop_last(), excluded);
        if excluded.contains(s.last()) || acc.contains(s.last()) {
            acc
        } else {
            acc.push(s.last())
        }
    }
}

/// The devices of the mappings that are not detected, in ascending order.
pub open spec fn spec_disconnected(mapped: Seq<DeviceId>, detected: Seq<DeviceId>) -> Seq<DeviceId> {
    sorted_ids(unique_not_in(mapped, detected))
}

/// The dropdown of a detected device.
pub open spec fn detected_dropdown(infos: Map<DeviceId, DeviceInfo>, d: DeviceId) -> DropdownView {
    DropdownView {
        title: match infos[d].name {
            Some(n) => n@,
            None => "Unnamed Device"@,
        },
        subtitle: Some("FSCT Device: "@ + uuid_hyphenated(d)),
        setting: spec_setting_key(d),
    }
}

/// The dropdown of a mapped device that is not detected.
pub open spec fn disconnected_dropdown(d: DeviceId) -> DropdownView {
    DropdownView {
        title: "Device "@ + uuid_hyphenated(d),
        subtitle: Some("(Disconnected) - Clear selection to remove"@),
        setting: spec_setting_key(d),
    }
}

/// The widgets of the settings page: a notice when there are no devices; otherwise a
/// group of the detected devices and a group of the disconnected ones, each when not empty.
pub open spec fn spec_layout_widgets(
    detected: Seq<DeviceId>,
    disconnected: Seq<DeviceId>,
    infos: Map<DeviceId, DeviceInfo>,
) -> Seq<WidgetView> {
    if detected.len() == 0 && disconnected.len() == 0 {
        seq![
            WidgetView::Label {
                title: "No FSCT devices available"@,
                subtitle: Some("Connect an FSCT device to continue"@),
            },
        ]
    } else {
        (if detected.len() > 0 {
            seq![
                WidgetView::Group {
                    title: "Available FSCT Devices"@,
                    subtitle: Some("Assign each device to a Roon output"@),
                    collapsable: false,
                    items: detected.map_values(|d: DeviceId| detected_dropdown(infos, d)),
                },
            ]
        } else {
            Seq::empty()
        }) + (if disconnected.len() > 0 {
            seq![
                WidgetView::Group {
                    title: "Previously Assigned (Disconnected)"@,
                    subtitle: Some(
                        "These devices are no longer detected. Clear selection to remove."@,
                    ),
                    collapsable: true,
                    items: disconnected.map_values(|d: DeviceId| disconnected_dropdown(d)),
                },
            ]
        } else {
            Seq::empty()
        })
    }
}

/// A device id is in the detected devices exactly when one of them has it.
proof fn lemma_device_infos_dom(devices: Seq<DeviceInfo>, x: DeviceId)
    ensures
        device_infos(devices).contains_key(x) <==> device_ids(devices).contains(x),
    decreases devices.len(),
{
    if devices.len() > 0 {
        let t = devices.drop_last();
        lemma_device_infos_dom(t, x);
        if device_ids(t).contains(x) {
            let j = choose|j: int| 0 <= j < device_ids(t).len() && device_ids(t)[j] == x;
            assert(device_ids(devices)[j] == x);
        }
        if device_ids(devices).contains(x) {
            let j = choose|j: int| 0 <= j < device_ids(devices).len() && device_ids(devices)[j] == x;
            if j < t.len() {
                assert(device_ids(t)[j] == x);
            }
        }
        if x == devices.last().id {
            assert(device_ids(devices)[devices.len() - 1] == x);
        }
    }
}

/// Whether `v` holds `x`.
fn holds_id(v: &Vec<DeviceId>, x: DeviceId) -> (r: bool)
    ensures
        r == v@.contains(x),
{
    let n = v.len();
    let mut i: usize = 0;
    while i < n
        invariant
            n == v@.len(),
            i <= n,
            forall|j: int| 0 <= j < i ==> v@[j] != x,
        decreases n - i,
    {
        if v[i] == x {
            return true;
        }
        i = i + 1;
    }
    false
}

/// Create settings layout.
/// Lists all FSCT devices (detected + previously mapped but not detected).
/// For each device, provides a dropdown with available Roon outputs.
pub fn make_layout(
    settings: ExtensionSettings,
    available_devices: Vec<DeviceInfo>,
    current_mappings: &Mappings,
    available_outputs: Vec<Output>,
) -> (layout: Layout)
    requires
        settings.wf(),
        current_mappings.wf(),
    ensures
        layout.settings.wf(),
        layout.settings.device_outputs@ == spec_fill_settings(
            settings.device_outputs@,
            spec_device_output_ids(current_mappings.entries()),
            available_outputs@,
        ),
        widget_views(layout.widgets@) == spec_layout_widgets(
            sorted_ids(device_ids(available_devices@)),
            spec_disconnected(
                current_mappings.pair_views().map_values(|e: (Seq<char>, DeviceId)| e.1),
                sorted_ids(device_ids(available_devices@)),
            ),
            device_infos(available_devices@),
        ),
        !layout.has_error,
{
    let mut settings = settings;
    let ghost devs = available_devices@;

    // Map of device UUID to device info for display
    let mut device_info_map: KeyedTable<DeviceId, DeviceInfo> = KeyedTable::new();
    let mut ids: Vec<DeviceId> = Vec::new();
    let nd = available_devices.len();
    let mut i: usize = 0;
    assert(devs.take(0) =~= Seq::<DeviceInfo>::empty());
    while i < nd
        invariant
            nd == devs.len(),
            devs == available_devices@,
            i <= nd,
            device_info_map.wf(),
            device_info_map@ == device_infos(devs.take(i as int)),
            ids@ == device_ids(devs.take(i as int)),
        decreases nd - i,
    {
        assert(devs.take(i + 1).drop_last() =~= devs.take(i as int));
        let info = available_devices[i].clone();
        ids.push(info.id);
        device_info_map.insert(info.id, info);
        assert(ids@ =~= device_ids(devs.take(i + 1)));
        i = i + 1;
    }
    assert(devs.take(nd as int) =~= devs);

    // Detected devices, in ascending order
    let detected_devices = crate::ids::sort_ids(&ids);
    let ghost detected = detected_devices@;

    // Reverse mapping from device_uuid to output_id
    let mut device_to_output: KeyedTable<DeviceId, String> = KeyedTable::new();
    let pairs = current_mappings.pairs();
    let ghost entries = current_mappings.entries();
    let np = pairs.len();
    let mut k: usize = 0;
    assert(entries.take(0) =~= Seq::<(String, DeviceId)>::empty());
    assert(device_to_output.entry_views() =~= Seq::<(DeviceId, String)>::empty());
    while k < np
        invariant
            np == pairs@.len(),
            pairs@ == entries,
            entries == current_mappings.entries(),
            k <= np,
            device_to_output.wf(),
            device_to_output.entry_views() == spec_device_output_ids(entries.take(k as int)),
        decreases np - k,
    {
        assert(entries.take(k + 1).drop_last() =~= entries.take(k as int));
        let output_id = pairs[k].0.clone();
        device_to_output.insert(pairs[k].1, output_id);
        k = k + 1;
    }
    assert(entries.take(np as int) =~= entries);

    // Populate settings with current mappings if not already set
    let dev_out = device_to_output.as_vec();
    let ghost dv = device_to_output.entry_views();
    let ghost initial = settings.device_outputs@;
    let nv = dev_out.len();
    let mut j: usize = 0;
    assert(dv.take(0) =~= Seq::<(DeviceId, String)>::empty());
    while j < nv
        invariant
            nv == dev_out@.len(),
            dev_out@ == device_to_output.entries(),
            dv == device_to_output.entry_views(),
            j <= nv,
            settings.wf(),
            settings.device_outputs@ == spec_fill_settings(initial, dv.take(j as int), available_outputs@),
        decreases nv - j,
    {
        assert(dv.take(j + 1).drop_last() =~= dv.take(j as int));
        assert(dv.take(j + 1).last() == (dev_out@[j as int].0, dev_out@[j as int].1));
        let setting_key = setting_key(dev_out[j].0);
        if !settings.device_outputs.contains_key(&setting_key) {
            match find_output(available_outputs.as_slice(), dev_out[j].1.as_str()) {
                Some(output) => {
                    settings.device_outputs.insert(setting_key, Some(setting_for_output(output)));
                },
                None => {},
            }
        }
        j = j + 1;
    }
    assert(dv.take(nv as int) =~= dv);

    // Mapped devices that are not currently detected (disconnected)
    let ghost mapped = current_mappings.pair_views().map_values(|e: (Seq<char>, DeviceId)| e.1);
    let mut disconnected: Vec<DeviceId> = Vec::new();
    let mut q: usize = 0;
    assert(mapped.take(0) =~= Seq::<DeviceId>::empty());
    while q < np
        invariant
            np == pairs@.len(),
            pairs@ == current_mappings.entries(),
            mapped == current_mappings.pair_views().map_values(|e: (Seq<char>, DeviceId)| e.1),
            mapped.len() == np,
            detected == detected_devices@,
            q <= np,
            disconnected@ == unique_not_in(mapped.take(q as int), detected),
        decreases np - q,
    {
        assert(mapped.take(q + 1).drop_last() =~= mapped.take(q as int));
        assert(mapped[q as int] == pairs@[q as int].1);
        let d = pairs[q].1;
        if !holds_id(&detected_devices, d) && !holds_id(&disconnected, d) {
            disconnected.push(d);
        }
        q = q + 1;
    }
    assert(mapped.take(np as int) =~= mapped);
    let disconnected_devices = crate::ids::sort_ids(&disconnected);

    let mut widgets: Vec<Widget> = Vec::new();
    let ghost infos = device_info_map@;
    if detected_devices.len() == 0 && disconnected_devices.len() == 0 {
        widgets.push(
            Widget::Label {
                title: owned("No FSCT devices available"),
                subtitle: Some(owned("Connect an FSCT device to continue")),
            },
        );
    } else {
        // Detected devices section
        if detected_devices.len() > 0 {
            let mut detected_widgets: Vec<OutputDropdown> = Vec::new();
            let m = detected_devices.len();
            let mut a: usize = 0;
            while a < m
                invariant
                    m == detected.len(),
                    detected == detected_devices@,
                    detected == sorted_ids(device_ids(devs)),
                    infos == device_info_map@,
                    infos == device_infos(devs),
                    device_info_map.wf(),
                    a <= m,
                    dropdown_views(detected_widgets@) == detected.take(a as int).map_values(
                        |d: DeviceId| detected_dropdown(infos, d),
                    ),
                decreases m - a,
            {
                let device_uuid = detected_devices[a];
                proof {
                    assert(detected.contains(detected[a as int]));
                    crate::ids::lemma_sorted_contains(device_ids(devs), device_uuid);
                    lemma_device_infos_dom(devs, device_uuid);
                }
                let device_name = match device_info_map.get(&device_uuid) {
                    Some(info) => match &info.name {
                        Some(n) => n.clone(),
                        None => owned("Unnamed Device"),
                    },
                    None => owned("Unnamed Device"),
                };
                let id_text = device_id_text(device_uuid);
                let ghost before = dropdown_views(detected_widgets@);
                detected_widgets.push(
                    OutputDropdown {
                        title: device_name,
                        subtitle: Some(joined("FSCT Device: ", id_text.as_str())),
                        setting: setting_key(device_uuid),
                    },
                );
                assert(dropdown_views(detected_widgets@) =~= before.push(
                    detected_dropdown(infos, device_uuid),
                ));
                assert(detected.take(a + 1) =~= detected.take(a as int).push(device_uuid));
                a = a + 1;
            }
            assert(detected.take(m as int) =~= detected);
            widgets.push(
                Widget::Group {
                    title: owned("Available FSCT Devices"),
                    subtitle: Some(owned("Assign each device to a Roon output")),
                    collapsable: false,
                    items: detected_widgets,
                },
            );
        }
        let ghost first = widget_views(widgets@);
        // Disconnected devices section
        if disconnected_devices.len() > 0 {
            let ghost disc = disconnected_devices@;
            let mut disconnected_widgets: Vec<OutputDropdown> = Vec::new();
            let m = disconnected_devices.len();
            let mut b: usize = 0;
            while b < m
                invariant
                    m == disc.len(),
                    disc == disconnected_devices@,
                    b <= m,
                    dropdown_views(disconnected_widgets@) == disc.take(b as int).map_values(
                        |d: DeviceId| disconnected_dropdown(d),
                    ),
                decreases m - b,
            {
                let device_uuid = disconnected_devices[b];
                let id_text = device_id_text(device_uuid);
                let ghost before = dropdown_views(disconnected_widgets@);
                disconnected_widgets.push(
                    OutputDropdown {
                        title: joined("Device ", id_text.as_str()),
                        subtitle: Some(owned("(Disconnected) - Clear selection to remove")),
                        setting: setting_key(device_uuid),
                    },
                );
                assert(dropdown_views(disconnected_widgets@) =~= before.push(
                    disconnected_dropdown(device_uuid),
                ));
                assert(disc.take(b + 1) =~= disc.take(b as int).push(device_uuid));
                b = b + 1;
            }
            assert(disc.take(m as int) =~= disc);
            widgets.push(
                Widget::Group {
                    title: owned("Previously Assigned (Disconnected)"),
                    subtitle: Some(
                        owned("These devices are no longer detected. Clear selection to remove."),
                    ),
                    collapsable: true,
                    items: disconnected_widgets,
                },
            );
        }
    }
    let layout = Layout { settings, widgets, has_error: false };
    assert(widget_views(layout.widgets@) =~= spec_layout_widgets(
        detected,
        disconnected_devices@,
        device_infos(devs),
    ));
    layout
}

/// The device and available output of a mapping pair.
pub open spec fn pair_device_output(avail: Seq<Output>) -> spec_fn((Seq<char>, DeviceId)) -> (
    DeviceId,
    Output,
) {
    |e: (Seq<char>, DeviceId)| (e.1, first_output(avail, e.0)->0)
}

/// The settings entry of a device with its output.
pub open spec fn entry_for() -> spec_fn((DeviceId, Output)) -> (Seq<char>, Option<OutputSetting>) {
    |e: (DeviceId, Output)| (spec_setting_key(e.0), Some(setting_for(e.1)))
}

/// The settings key of a device names that device.
proof fn lemma_key_device(d: DeviceId)
    ensures
        key_device(spec_setting_key(d)) == Some(d),
{
    let k = spec_setting_key(d);
    let p = device_prefix();
    assert(k.subrange(0, p.len() as int) =~= p);
    assert(k.subrange(p.len() as int, k.len() as int) =~= uuid_hyphenated(d));
    lemma_read_hyphenated(d);
}

/// With all outputs available and all devices distinct, the device table lists the
/// pairs in order.
proof fn lemma_device_outputs_listing(pairs: Seq<(Seq<char>, DeviceId)>, avail: Seq<Output>)
    requires
        forall|i: int| 0 <= i < pairs.len() ==> #[trigger] first_output(avail, pairs[i].0) is Some,
        forall|i: int, j: int|
            0 <= i < pairs.len() && 0 <= j < pairs.len() && i != j ==> #[trigger] pairs[i].1
                != #[trigger] pairs[j].1,
    ensures
        spec_device_outputs(pairs, avail) == pairs.map_values(pair_device_output(avail)),
    decreases pairs.len(),
{
    if pairs.len() > 0 {
        let t = pairs.drop_last();
        let x = pairs.last();
        assert forall|i: int| 0 <= i < t.len() implies #[trigger] first_output(avail, t[i].0) is Some by {
            assert(t[i] == pairs[i]);
        }
        assert forall|i: int, j: int|
            0 <= i < t.len() && 0 <= j < t.len() && i != j implies #[trigger] t[i].1 != #[trigger] t[j].1 by {
            assert(t[i] == pairs[i] && t[j] == pairs[j]);
        }
        lemma_device_outputs_listing(t, avail);
        let acc = t.map_values(pair_device_output(avail));
        assert(first_output(avail, pairs[pairs.len() - 1].0) is Some);
        if crate::table::views_has(acc, x.1) {
            let j = crate::table::views_index(acc, x.1);
            assert(acc[j].0 == t[j].1);
            assert(pairs[j].1 != pairs[pairs.len() - 1].1);
        }
        assert(pairs.map_values(pair_device_output(avail)) =~= acc.push(pair_device_output(avail)(x)));
    }
}

/// With distinct keys, the settings entries list the devices in order.
proof fn lemma_settings_entries_listing(dev_outs: Seq<(DeviceId, Output)>)
    requires
        forall|i: int, j: int|
            0 <= i < dev_outs.len() && 0 <= j < dev_outs.len() && i != j ==> spec_setting_key(
                #[trigger] dev_outs[i].0,
            ) != spec_setting_key(#[trigger] dev_outs[j].0),
    ensures
        spec_settings_entries(dev_outs) == dev_outs.map_values(entry_for()),
    decreases dev_outs.len(),
{
    if dev_outs.len() > 0 {
        let t = dev_outs.drop_last();
        let x = dev_outs.last();
        assert forall|i: int, j: int|
            0 <= i < t.len() && 0 <= j < t.len() && i != j implies spec_setting_key(#[trigger] t[i].0)
            != spec_setting_key(#[trigger] t[j].0) by {
            assert(t[i] == dev_outs[i] && t[j] == dev_outs[j]);
        }
        lemma_settings_entries_listing(t);
        let acc = t.map_values(entry_for());
        if crate::table::views_has(acc, spec_setting_key(x.0)) {
            let j = crate::table::views_index(acc, spec_setting_key(x.0));
            assert(acc[j].0 == spec_setting_key(t[j].0));
            assert(spec_setting_key(dev_outs[j].0) != spec_setting_key(dev_outs[dev_outs.len() - 1].0));
        }
        assert(dev_outs.map_values(entry_for()) =~= acc.push(entry_for()(x)));
    }
}

/// Reading back the settings entries of available mapped outputs stores each pair.
proof fn lemma_read_back(pairs: Seq<(Seq<char>, DeviceId)>, avail: Seq<Output>)
    requires
        forall|i: int| 0 <= i < pairs.len() ==> #[trigger] first_output(avail, pairs[i].0) is Some,
    ensures
        spec_settings_to_mappings(
            pairs.map_values(pair_device_output(avail)).map_values(entry_for()),
        ) == crate::table::views_fold_insert(pairs),
    decreases pairs.len(),
{
    if pairs.len() > 0 {
        let t = pairs.drop_last();
        let x = pairs.last();
        assert forall|i: int| 0 <= i < t.len() implies #[trigger] first_output(avail, t[i].0) is Some by {
            assert(t[i] == pairs[i]);
        }
        lemma_read_back(t, avail);
        let s = pairs.map_values(pair_device_output(avail)).map_values(entry_for());
        assert(s.drop_last() =~= t.map_values(pair_device_output(avail)).map_values(entry_for()));
        assert(first_output(avail, pairs[pairs.len() - 1].0) is Some);
        lemma_key_device(x.1);
        let o = first_output(avail, x.0)->0;
        let i = first_where(avail, output_with_id(x.0))->0;
        lemma_first_where(avail, output_with_id(x.0), i);
        assert(o.output_id@ == x.0);
        assert(s.last() == (spec_setting_key(x.1), Some(setting_for(o))));
    }
}

/// Turning mappings into settings and the settings back into mappings gives the same
/// mappings, when every mapped output is available and no two outputs share a device.
pub proof fn law_settings_round_trip(m: Mappings, avail: Seq<Output>)
    requires
        m.wf(),
        forall|k: Seq<char>| #[trigger] m@.contains_key(k) ==> first_output(avail, k) is Some,
        forall|k1: Seq<char>, k2: Seq<char>|
            #[trigger] m@.contains_key(k1) && #[trigger] m@.contains_key(k2) && k1 != k2 ==> m@[k1]
                != m@[k2],
    ensures
        spec_settings_to_mappings(
            spec_settings_entries(spec_device_outputs(m.pair_views(), avail)),
        ) == m@,
{
    m.lemma_pairs();
    let pairs = m.pair_views();
    assert forall|i: int| 0 <= i < pairs.len() implies #[trigger] first_output(avail, pairs[i].0) is Some by {
        assert(m@.contains_key(pairs[i].0));
    }
    assert forall|i: int, j: int|
        0 <= i < pairs.len() && 0 <= j < pairs.len() && i != j implies #[trigger] pairs[i].1
        != #[trigger] pairs[j].1 by {
        assert(m@.contains_key(pairs[i].0) && m@.contains_key(pairs[j].0));
        assert(pairs[i].0 != pairs[j].0);
    }
    lemma_device_outputs_listing(pairs, avail);
    let dev_outs = pairs.map_values(pair_device_output(avail));
    assert forall|i: int, j: int|
        0 <= i < dev_outs.len() && 0 <= j < dev_outs.len() && i != j implies spec_setting_key(
        #[trigger] dev_outs[i].0,
    ) != spec_setting_key(#[trigger] dev_outs[j].0) by {
        assert(dev_outs[i].0 == pairs[i].1 && dev_outs[j].0 == pairs[j].1);
        if spec_setting_key(pairs[i].1) == spec_setting_key(pairs[j].1) {
            lemma_key_device(pairs[i].1);
            lemma_key_device(pairs[j].1);
        }
    }
    lemma_settings_entries_listing(dev_outs);
    lemma_read_back(pairs, avail);
}

/// The dropdowns of a widget: those of a group; none for a label.
pub open spec fn group_items(w: WidgetView) -> Seq<DropdownView> {
    match w {
        WidgetView::Group { items, .. } => items,
        WidgetView::Label { .. } => Seq::empty(),
    }
}

/// Some group of the widgets has a dropdown for the setting `key`.
pub open spec fn offers_setting(w: Seq<WidgetView>, key: Seq<char>) -> bool {
    exists|i: int, j: int|
        #![trigger group_items(w[i])[j]]
        0 <= i < w.len() && 0 <= j < group_items(w[i]).len() && group_items(w[i])[j].setting == key
}

/// Some widget is a notice label rather than a group of dropdowns.
pub open spec fn has_notice(w: Seq<WidgetView>) -> bool {
    exists|i: int| 0 <= i < w.len() && #[trigger] w[i] is Label
}

/// A value is among the values kept by `unique_not_in` exactly when it is in `s` and not
/// excluded.
proof fn lemma_unique_not_in_contains(s: Seq<DeviceId>, excluded: Seq<DeviceId>, x: DeviceId)
    ensures
        unique_not_in(s, excluded).contains(x) <==> s.contains(x) && !excluded.contains(x),
    decreases s.len(),
{
    if s.len() > 0 {
        let t = s.drop_last();
        let l = s.last();
        lemma_unique_not_in_contains(t, excluded, x);
        let acc = unique_not_in(t, excluded);
        if t.contains(x) {
            let j = choose|j: int| 0 <= j < t.len() && t[j] == x;
            assert(s[j] == x);
        }
        if s.contains(x) {
            let j = choose|j: int| 0 <= j < s.len() && s[j] == x;
            if j < t.len() {
                assert(t[j] == x);
            }
        }
        if !(excluded.contains(l) || acc.contains(l)) {
            let r = acc.push(l);
            assert(r[acc.len() as int] == l);
            if acc.contains(x) {
                let j = choose|j: int| 0 <= j < acc.len() && acc[j] == x;
                assert(r[j] == x);
            }
            if r.contains(x) {
                let j = choose|j: int| 0 <= j < r.len() && r[j] == x;
                if j < acc.len() {
                    assert(acc[j] == x);
                }
            }
        }
    }
}

/// A sequence is empty exactly when it contains nothing.
proof fn lemma_empty_iff_holds_nothing(s: Seq<DeviceId>)
    ensures
        s.len() == 0 <==> forall|x: DeviceId| !s.contains(x),
{
    if s.len() > 0 {
        assert(s.contains(s[0]));
    }
}

/// The settings page offers a dropdown for every detected device and for every mapped
/// device, detected or not, so that a stale mapping can be cleared; it shows the "no
/// devices" notice exactly when no device is detected and none is mapped.
pub proof fn law_layout_lists_devices(devices: Seq<DeviceInfo>, mapped: Seq<DeviceId>)
    ensures
        ({
            let detected = sorted_ids(device_ids(devices));
            let w = spec_layout_widgets(detected, spec_disconnected(mapped, detected), device_infos(devices));
            &&& forall|d: DeviceId| #[trigger]
                device_ids(devices).contains(d) ==> offers_setting(w, spec_setting_key(d))
            &&& forall|d: DeviceId| #[trigger] mapped.contains(d) ==> offers_setting(w, spec_setting_key(d))
            &&& has_notice(w) <==> devices.len() == 0 && mapped.len() == 0
        }),
{
    let ids = device_ids(devices);
    let detected = sorted_ids(ids);
    let un = unique_not_in(mapped, detected);
    let disc = spec_disconnected(mapped, detected);
    let infos = device_infos(devices);
    let w = spec_layout_widgets(detected, disc, infos);
    assert forall|d: DeviceId| #[trigger] detected.contains(d) <==> ids.contains(d) by {
        lemma_sorted_contains(ids, d);
    }
    assert forall|d: DeviceId| #[trigger] disc.contains(d) <==> mapped.contains(d) && !detected.contains(d) by {
        lemma_sorted_contains(un, d);
        lemma_unique_not_in_contains(mapped, detected, d);
    }
    lemma_empty_iff_holds_nothing(ids);
    lemma_empty_iff_holds_nothing(detected);
    lemma_empty_iff_holds_nothing(disc);
    lemma_empty_iff_holds_nothing(mapped);
    assert(ids.len() == devices.len());
    let first = if detected.len() > 0 {
        seq![
            WidgetView::Group {
                title: "Available FSCT Devices"@,
                subtitle: Some("Assign each device to a Roon output"@),
                collapsable: false,
                items: detected.map_values(|d: DeviceId| detected_dropdown(infos, d)),
            },
        ]
    } else {
        Seq::<WidgetView>::empty()
    };
    let second = if disc.len() > 0 {
        seq![
            WidgetView::Group {
                title: "Previously Assigned (Disconnected)"@,
                subtitle: Some("These devices are no longer detected. Clear selection to remove."@),
                collapsable: true,
                items: disc.map_values(|d: DeviceId| disconnected_dropdown(d)),
            },
        ]
    } else {
        Seq::<WidgetView>::empty()
    };
    if detected.len() == 0 && disc.len() == 0 {
        assert(w[0] is Label);
    } else {
        assert(w == first + second);
        assert forall|i: int| 0 <= i < w.len() implies !(#[trigger] w[i] is Label) by {
            if i < first.len() {
                assert(w[i] == first[i]);
            } else {
                assert(w[i] == second[i - first.len()]);
            }
        }
        assert forall|d: DeviceId| #[trigger] detected.contains(d) implies offers_setting(
            w,
            spec_setting_key(d),
        ) by {
            let j = choose|j: int| 0 <= j < detected.len() && detected[j] == d;
            assert(w[0] == first[0]);
            assert(group_items(w[0])[j] == detected_dropdown(infos, d));
        }
        assert forall|d: DeviceId| #[trigger] disc.contains(d) implies offers_setting(
            w,
            spec_setting_key(d),
        ) by {
            let j = choose|j: int| 0 <= j < disc.len() && disc[j] == d;
            let i = first.len() as int;
            assert(w[i] == second[0]);
            assert(group_items(w[i])[j] == disconnected_dropdown(d));
        }
    }
    assert forall|d: DeviceId| #[trigger] mapped.contains(d) implies offers_setting(w, spec_setting_key(d)) by {
        if !detected.contains(d) {
            assert(disc.contains(d));
        }
    }
    assert forall|d: DeviceId| #[trigger] ids.contains(d) implies offers_setting(w, spec_setting_key(d)) by {
        assert(detected.contains(d));
    }
    if devices.len() == 0 && mapped.len() > 0 {
        assert(mapped.contains(mapped[0]));
        assert(disc.contains(mapped[0]));
    }
    if detected.len() > 0 {
        assert(detected.contains(detected[0]));
        assert(ids.contains(detected[0]));
    }
    if disc.len() > 0 {
        assert(disc.contains(disc[0]));
        assert(mapped.contains(disc[0]));
    }
    if detected.len() == 0 && disc.len() == 0 {
        assert(has_notice(w));
    } else {
        assert(!has_notice(w));
    }
}

/// Filling the settings from the mappings keeps every entry that was there, with its
/// value (a choice the user made, or a cleared one); it only adds entries for the keys
/// of mapped devices that had none.
pub proof fn law_fill_keeps_settings(
    settings: Map<Seq<char>, Option<OutputSetting>>,
    dev_out: Seq<(DeviceId, String)>,
    avail: Seq<Output>,
)
    ensures
        forall|k: Seq<char>| #[trigger]
            settings.contains_key(k) ==> spec_fill_settings(settings, dev_out, avail).contains_key(k)
                && spec_fill_settings(settings, dev_out, avail)[k] == settings[k],
        forall|k: Seq<char>| #[trigger]
            spec_fill_settings(settings, dev_out, avail).contains_key(k) && !settings.contains_key(k)
                ==> exists|i: int| 0 <= i < dev_out.len() && k == spec_setting_key(#[trigger] dev_out[i].0),
    decreases dev_out.len(),
{
    if dev_out.len() > 0 {
        let t = dev_out.drop_last();
        law_fill_keeps_settings(settings, t, avail);
        let acc = spec_fill_settings(settings, t, avail);
        let r = spec_fill_settings(settings, dev_out, avail);
        assert forall|k: Seq<char>| #[trigger]
            r.contains_key(k) && !settings.contains_key(k) implies exists|i: int|
            0 <= i < dev_out.len() && k == spec_setting_key(#[trigger] dev_out[i].0) by {
            if acc.contains_key(k) {
                let i = choose|i: int| 0 <= i < t.len() && k == spec_setting_key(#[trigger] t[i].0);
                assert(dev_out[i] == t[i]);
            } else {
                assert(k == spec_setting_key(dev_out[dev_out.len() - 1].0));
            }
        }
    }
}

} // verus!
