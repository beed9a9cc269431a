//! The display names and documentation of the known categories.
use vstd::prelude::*;

verus! {

/// Extra data attached to a category: the name it is shown under and its
/// documentation.
#[derive(Debug, PartialEq, Eq)]
pub struct CategoryRename {
    /// The raw category prefix this entry applies to.
    pub name: String,
    /// The name to show instead of the prefix, where it differs.
    pub rename_to: Option<String>,
    /// The documentation of the category.
    pub documentation: Option<String>,
}

pub struct RenameModel {
    pub name: Seq<char>,
    pub rename_to: Option<Seq<char>>,
    pub documentation: Option<Seq<char>>,
}

pub open spec fn opt_view(o: Option<String>) -> Option<Seq<char>> {
    match o {
        Some(s) => Some(s@),
        None => None,
    }
}

impl View for CategoryRename {
    type V = RenameModel;

    open spec fn view(&self) -> RenameModel {
        RenameModel {
            name: self.name@,
            rename_to: opt_view(self.rename_to),
            documentation: opt_view(self.documentation),
        }
    }
}

pub open spec fn opt_str(o: Option<&str>) -> Option<Seq<char>> {
    match o {
        Some(s) => Some(s@),
        None => None,
    }
}

pub open spec fn rename(name: &str, rename_to: Option<&str>, documentation: Option<&str>) -> RenameModel {
    RenameModel { name: name@, rename_to: opt_str(rename_to), documentation: opt_str(documentation) }
}

/// The table of known categories.
pub open spec fn rename_table() -> Seq<RenameModel> {
    seq![
        rename("Input", Some("InputQuirk"), Some("Device properties and quirks.")),
        rename("Ev", Some("EventType"), Some("Event types.")),
        rename("Syn", Some("SynchronizationEvent"), Some("Synchronization events.")),
        rename("Key", None, None),
        rename("Btn", Some("Button"), None),
        rename("Rel", Some("RelativeAxis"), Some("Relative axes.")),
        rename("Abs", Some("AbsoluteAxis"), Some("Absolute axes.")),
        rename("Sw", Some("SwitchEvent"), Some("Switch events.")),
        rename("Msc", Some("MiscEvent"), Some("Miscellaneous events.")),
        rename("Rep", Some("AutoRepeat"), Some("Autorepeat values.")),
        rename("Snd", Some("Sound"), None),
    ]
}

/// The index of the first entry of `t` for `prefix`, searching from `i`.
pub open spec fn rename_index(t: Seq<RenameModel>, prefix: Seq<char>, i: int) -> Option<int>
    decreases t.len() - i,
{
    if i < 0 || i >= t.len() {
        None
    } else if t[i].name == prefix {
        Some(i)
    } else {
        rename_index(t, prefix, i + 1)
    }
}

/// The display name and documentation of the category `prefix`: those of its
/// entry in the table, where it has one; else the prefix itself and none.
pub open spec fn rename_of(prefix: Seq<char>) -> (Seq<char>, Option<Seq<char>>) {
    match rename_index(rename_table(), prefix, 0) {
        Some(k) => (
            match rename_table()[k].rename_to {
                Some(n) => n,
                None => prefix,
            },
            rename_table()[k].documentation,
        ),
        None => (prefix, None),
    }
}

fn owned(s: Option<&str>) -> (r: Option<String>)
    ensures
        opt_view(r) == opt_str(s),
{
    match s {
        Some(s) => Some(s.to_owned()),
        None => None,
    }
}

fn entry(name: &str, rename_to: Option<&str>, documentation: Option<&str>) -> (r: CategoryRename)
    ensures
        r@ == rename(name, rename_to, documentation),
{
    CategoryRename {
        name: name.to_owned(),
        rename_to: owned(rename_to),
        documentation: owned(documentation),
    }
}

/// The table of known categories, as values.
pub fn renames() -> (r: Vec<CategoryRename>)
    ensures
        r@.map_values(|e: CategoryRename| e@) == rename_table(),
{
    let r = vec![
        entry("Input", Some("InputQuirk"), Some("Device properties and quirks.")),
        entry("Ev", Some("EventType"), Some("Event types.")),
        entry("Syn", Some("SynchronizationEvent"), Some("Synchronization events.")),
        entry("Key", None, None),
        entry("Btn", Some("Button"), None),
        entry("Rel", Some("RelativeAxis"), Some("Relative axes.")),
        entry("Abs", Some("AbsoluteAxis"), Some("Absolute axes.")),
        entry("Sw", Some("SwitchEvent"), Some("Switch events.")),
        entry("Msc", Some("MiscEvent"), Some("Miscellaneous events.")),
        entry("Rep", Some("AutoRepeat"), Some("Autorepeat values.")),
        entry("Snd", Some("Sound"), None),
    ];
    assert(r@.map_values(|e: CategoryRename| e@) =~= rename_table());
    r
}

/// The display name and documentation of the category `prefix`, matched
/// exactly and with case.
pub fn lookup_rename(prefix: &str) -> (r: (String, Option<String>))
    ensures
        (r.0@, opt_view(r.1)) == rename_of(prefix@),
{
    let table = renames();
    let ghost t = table@.map_values(|e: CategoryRename| e@);
    let key = prefix.to_owned();
    let mut j: usize = 0;
    while j < table.len()
        invariant
            j <= table@.len(),
            t == table@.map_values(|e: CategoryRename| e@),
            t == rename_table(),
            key@ == prefix@,
            rename_index(t, key@, 0) == rename_index(t, key@, j as int),
        decreases table@.len() - j,
    {
        if table[j].name == key {
            assert(t[j as int] == table@[j as int]@);
            let name = match &table[j].rename_to {
                Some(n) => n.clone(),
                None => key,
            };
            return (name, table[j].documentation.clone());
        }
        j = j + 1;
    }
    (key, None)
}

} // verus!
