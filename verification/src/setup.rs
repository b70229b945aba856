//! The 2D simulation setup menu: three dropdowns (algorithm, map, robot
//! model), at most one of them open, and the configuration they fill in.
use vstd::prelude::*;
use vstd::string::*;

verus! {

/// The three settings chosen in the setup menu.
#[derive(Clone, Copy, Debug, PartialEq, Eq, Structural)]
pub enum ConfigCategory {
    Algorithm,
    MapFile,
    Urdf,
}

/// The chosen settings; an empty string means "not chosen yet".
pub struct SetupConfig {
    pub algorithm: String,
    pub map_name: String,
    pub urdf_model: String,
}

/// One entry of a dropdown: the setting it belongs to and its value.
pub struct SelectionItem {
    pub category: ConfigCategory,
    pub value: String,
}

/// The title of a dropdown.
pub open spec fn category_title(cat: ConfigCategory) -> Seq<char> {
    match cat {
        ConfigCategory::Algorithm => "Algorithm"@,
        ConfigCategory::MapFile => "Map"@,
        ConfigCategory::Urdf => "URDF"@,
    }
}

/// What a dropdown's label shows for a value: the value, or `None` when empty.
pub open spec fn shown_value(v: Seq<char>) -> Seq<char> {
    if v.len() == 0 {
        "None"@
    } else {
        v
    }
}

/// The label of a dropdown: `"<title> : <value>"`.
pub open spec fn label_text(cat: ConfigCategory, v: Seq<char>) -> Seq<char> {
    category_title(cat) + " : "@ + shown_value(v)
}

/// The settings as texts.
pub struct ConfigView {
    pub algorithm: Seq<char>,
    pub map_name: Seq<char>,
    pub urdf_model: Seq<char>,
}

impl ConfigView {
    /// The value of one setting.
    pub open spec fn field(self, cat: ConfigCategory) -> Seq<char> {
        match cat {
            ConfigCategory::Algorithm => self.algorithm,
            ConfigCategory::MapFile => self.map_name,
            ConfigCategory::Urdf => self.urdf_model,
        }
    }

    /// The settings with one of them set to `v`.
    pub open spec fn with_field(self, cat: ConfigCategory, v: Seq<char>) -> ConfigView {
        match cat {
            ConfigCategory::Algorithm => ConfigView { algorithm: v, ..self },
            ConfigCategory::MapFile => ConfigView { map_name: v, ..self },
            ConfigCategory::Urdf => ConfigView { urdf_model: v, ..self },
        }
    }

    /// Every setting has been chosen.
    pub open spec fn is_ready(self) -> bool {
        self.algorithm.len() > 0 && self.map_name.len() > 0 && self.urdf_model.len() > 0
    }

    /// The dropdown entry `(cat, v)` is the chosen one.
    pub open spec fn selects(self, cat: ConfigCategory, v: Seq<char>) -> bool {
        self.field(cat) == v
    }
}

impl View for SetupConfig {
    type V = ConfigView;

    open spec fn view(&self) -> ConfigView {
        ConfigView {
            algorithm: self.algorithm@,
            map_name: self.map_name@,
            urdf_model: self.urdf_model@,
        }
    }
}

impl SetupConfig {
    /// Nothing chosen.
    pub fn new() -> (c: Self)
        ensures
            c@ == (ConfigView {
                algorithm: Seq::empty(),
                map_name: Seq::empty(),
                urdf_model: Seq::empty(),
            }),
    {
        SetupConfig { algorithm: String::new(), map_name: String::new(), urdf_model: String::new() }
    }

    /// The value of one setting.
    pub fn value(&self, cat: ConfigCategory) -> (v: &String)
        ensures
            v@ == self@.field(cat),
    {
        match cat {
            ConfigCategory::Algorithm => &self.algorithm,
            ConfigCategory::MapFile => &self.map_name,
            ConfigCategory::Urdf => &self.urdf_model,
        }
    }

    /// Whether the simulation can start: all three settings are chosen.
    pub fn is_ready(&self) -> (b: bool)
        ensures
            b == self@.is_ready(),
    {
        !self.algorithm.as_str().is_empty() && !self.map_name.as_str().is_empty()
            && !self.urdf_model.as_str().is_empty()
    }

    /// Whether `item` is the chosen value of its setting.
    pub fn is_item_selected(&self, item: &SelectionItem) -> (b: bool)
        ensures
            b == self@.selects(item.category, item.value@),
    {
        match item.category {
            ConfigCategory::Algorithm => self.algorithm == item.value,
            ConfigCategory::MapFile => self.map_name == item.value,
            ConfigCategory::Urdf => self.urdf_model == item.value,
        }
    }

    /// The text of a dropdown's label.
    pub fn label(&self, cat: ConfigCategory) -> (s: String)
        ensures
            s@ == label_text(cat, self@.field(cat)),
    {
        let mut s = match cat {
            ConfigCategory::Algorithm => String::from_str("Algorithm"),
            ConfigCategory::MapFile => String::from_str("Map"),
            ConfigCategory::Urdf => String::from_str("URDF"),
        };
        s.append(" : ");
        let v = self.value(cat);
        if v.as_str().is_empty() {
            s.append("None");
        } else {
            s.append(v.as_str());
        }
        s
    }
}

/// The dropdown open after clicking the toggle of `cat`.
pub open spec fn toggled(active: Option<ConfigCategory>, cat: ConfigCategory) -> Option<
    ConfigCategory,
> {
    if active == Some(cat) {
        None
    } else {
        Some(cat)
    }
}

/// Clicking the toggle of `cat` closes its dropdown if it is open, and
/// otherwise opens it, closing any other.
pub fn toggle_dropdown(active: Option<ConfigCategory>, cat: ConfigCategory) -> (r: Option<
    ConfigCategory,
>)
    ensures
        r == toggled(active, cat),
{
    match active {
        Some(a) => if a == cat {
            None
        } else {
            Some(cat)
        },
        None => Some(cat),
    }
}

/// Whether the dropdown of `cat` is shown.
pub fn dropdown_visible(active: Option<ConfigCategory>, cat: ConfigCategory) -> (b: bool)
    ensures
        b == (active == Some(cat)),
{
    match active {
        Some(a) => a == cat,
        None => false,
    }
}

/// Chooses `item`: its setting takes the item's value, the other settings
/// stay, and the open dropdown closes.
pub fn select_item(
    config: &mut SetupConfig,
    active: &mut Option<ConfigCategory>,
    item: &SelectionItem,
)
    ensures
        final(config)@ == old(config)@.with_field(item.category, item.value@),
        *final(active) == None::<ConfigCategory>,
{
    match item.category {
        ConfigCategory::Algorithm => config.algorithm = item.value.clone(),
        ConfigCategory::MapFile => config.map_name = item.value.clone(),
        ConfigCategory::Urdf => config.urdf_model = item.value.clone(),
    }
    *active = None;
}

/// The algorithms offered by the setup menu.
pub fn algorithm_options() -> (v: Vec<String>)
    ensures
        v@.len() == 3,
        v@[0]@ == "AStar"@,
        v@[1]@ == "UCS"@,
        v@[2]@ == "GBFS"@,
{
    let mut v: Vec<String> = Vec::new();
    v.push(String::from_str("AStar"));
    v.push(String::from_str("UCS"));
    v.push(String::from_str("GBFS"));
    v
}

/// How far a dropdown's list of `item_count` entries (each 40 px high, in a
/// 200 px window) can scroll.
pub fn dropdown_max_scroll(item_count: u32) -> (m: u64)
    ensures
        m == if item_count * 40 > 200 {
            item_count * 40 - 200
        } else {
            0
        },
{
    let total = item_count as u64 * 40;
    if total > 200 {
        total - 200
    } else {
        0
    }
}

/// Choosing an entry makes it the selected one of its dropdown, and leaves
/// the other settings as they were.
pub proof fn law_choice_is_selected(c: ConfigView, cat: ConfigCategory, v: Seq<char>)
    ensures
        c.with_field(cat, v).selects(cat, v),
        forall|other: ConfigCategory| other != cat ==> #[trigger] c.with_field(cat, v).field(other)
            == c.field(other),
        forall|w: Seq<char>| w != v ==> !#[trigger] c.with_field(cat, v).selects(cat, w),
{
}

/// Once a non-empty value has been chosen for each of the three settings,
/// in any order, the simulation can start.
pub proof fn law_ready_after_all_chosen(
    c: ConfigView,
    algorithm: Seq<char>,
    map_name: Seq<char>,
    urdf_model: Seq<char>,
)
    requires
        algorithm.len() > 0,
        map_name.len() > 0,
        urdf_model.len() > 0,
    ensures
        c.with_field(ConfigCategory::Algorithm, algorithm).with_field(
            ConfigCategory::MapFile,
            map_name,
        ).with_field(ConfigCategory::Urdf, urdf_model).is_ready(),
        !c.with_field(ConfigCategory::MapFile, Seq::empty()).is_ready(),
{
}

/// The simulation can start exactly when no setting is left empty: a
/// configuration missing any one setting is not ready, and one with every
/// setting chosen is.
pub proof fn law_ready_iff_nothing_missing(c: ConfigView)
    ensures
        forall|cat: ConfigCategory| #[trigger] c.field(cat).len() == 0 ==> !c.is_ready(),
        c.field(ConfigCategory::Algorithm).len() > 0 && c.field(ConfigCategory::MapFile).len() > 0
            && c.field(ConfigCategory::Urdf).len() > 0 ==> c.is_ready(),
        c.algorithm.len() == 0 ==> !c.is_ready(),
        c.map_name.len() == 0 ==> !c.is_ready(),
        c.urdf_model.len() == 0 ==> !c.is_ready(),
{
}

/// A dropdown label reads `"<title> : <value>"`, with `None` in place of an
/// empty value; the titles are `Algorithm`, `Map` and `URDF`.
pub proof fn law_label_shows_chosen_value(v: Seq<char>)
    ensures
        v.len() > 0 ==> label_text(ConfigCategory::Algorithm, v) == "Algorithm : "@ + v,
        v.len() > 0 ==> label_text(ConfigCategory::MapFile, v) == "Map : "@ + v,
        v.len() > 0 ==> label_text(ConfigCategory::Urdf, v) == "URDF : "@ + v,
        label_text(ConfigCategory::Algorithm, Seq::empty()) == "Algorithm : None"@,
        label_text(ConfigCategory::MapFile, Seq::empty()) == "Map : None"@,
        label_text(ConfigCategory::Urdf, Seq::empty()) == "URDF : None"@,
{
    reveal_strlit("Algorithm");
    reveal_strlit("Map");
    reveal_strlit("URDF");
    reveal_strlit(" : ");
    reveal_strlit("None");
    reveal_strlit("Algorithm : ");
    reveal_strlit("Map : ");
    reveal_strlit("URDF : ");
    reveal_strlit("Algorithm : None");
    reveal_strlit("Map : None");
    reveal_strlit("URDF : None");
    assert("Algorithm"@ + " : "@ =~= "Algorithm : "@);
    assert("Map"@ + " : "@ =~= "Map : "@);
    assert("URDF"@ + " : "@ =~= "URDF : "@);
    assert("Algorithm"@ + " : "@ + "None"@ =~= "Algorithm : None"@);
    assert("Map"@ + " : "@ + "None"@ =~= "Map : None"@);
    assert("URDF"@ + " : "@ + "None"@ =~= "URDF : None"@);
}

/// Clicking the same toggle twice restores a closed menu, or one where that
/// dropdown was open; and after a click its dropdown is open exactly when it
/// was not open before.
pub proof fn law_toggle_twice_restores(active: Option<ConfigCategory>, cat: ConfigCategory)
    ensures
        (active is None || active == Some(cat)) ==> toggled(toggled(active, cat), cat) == active,
        (toggled(active, cat) == Some(cat)) == (active != Some(cat)),
{
}

} // verus!
