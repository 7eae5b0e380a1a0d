//! The boot specification tree and the flattened entries made from it.
use vstd::prelude::*;
use vstd::string::StringExecFns;

verus! {

/// One named alternate boot configuration under a parent specification.
pub struct Specialisation {
    pub name: String,
    pub specification: BootSpecification,
}

/// The fields of a version 1 boot specification document.
pub struct SpecificationV1 {
    pub label: String,
    pub kernel: String,
    pub kernel_params: Vec<String>,
    pub init: String,
    pub initrd: Option<String>,
    /// The path of the full system closure.
    pub toplevel: String,
    /// Nested specialisations, in the document's own order; names are unique among siblings.
    pub specialisations: Vec<Specialisation>,
}

/// A versioned boot specification document.
pub enum BootSpecification {
    V1(SpecificationV1),
    /// A document of a version that this library does not read.
    Unsupported { version: u64 },
}

/// One enumerated system state with its boot specification.
pub struct Generation {
    pub index: u64,
    pub profile: String,
    pub specification: BootSpecification,
}

/// A flattened, self-contained record for one boot menu entry.
pub struct BootableToplevel {
    pub label: String,
    pub kernel: String,
    pub kernel_params: Vec<String>,
    pub init: String,
    pub initrd: Option<String>,
    pub toplevel: String,
    /// The name of the last specialisation edge taken to reach this entry.
    pub specialisation_name: Option<String>,
    pub generation_index: u64,
    pub profile_name: String,
}

/// A boot program that is started directly by the firmware.
pub struct EfiProgram {
    pub source: String,
}

/// Something that a boot entry can start.
pub enum Bootable {
    Linux(BootableToplevel),
    Efi(EfiProgram),
}

/// The notice that flattening descends into the specialisation `name` of the node
/// whose closure is `parent_toplevel`.
pub struct Notification {
    pub name: String,
    pub parent_toplevel: String,
    pub toplevel: String,
}

/// The mathematical value of a [`Notification`].
pub struct NotificationView {
    pub name: Seq<char>,
    pub parent_toplevel: Seq<char>,
    pub toplevel: Seq<char>,
}

impl View for Notification {
    type V = NotificationView;

    open spec fn view(&self) -> NotificationView {
        NotificationView {
            name: self.name@,
            parent_toplevel: self.parent_toplevel@,
            toplevel: self.toplevel@,
        }
    }
}

/// The line that reports a notice:
/// `Flattening specialisation '<name>' of toplevel <parent>: <toplevel>`.
pub open spec fn notice_line(n: NotificationView) -> Seq<char> {
    "Flattening specialisation '"@ + n.name + "' of toplevel "@ + n.parent_toplevel + ": "@
        + n.toplevel
}

impl Notification {
    /// The line that reports this notice.
    pub fn message(&self) -> (r: String)
        ensures
            r@ == notice_line(self@),
    {
        let mut r = String::from_str("Flattening specialisation '");
        r.append(self.name.as_str());
        r.append("' of toplevel ");
        r.append(self.parent_toplevel.as_str());
        r.append(": ");
        r.append(self.toplevel.as_str());
        r
    }
}

pub open spec fn notifications_view(v: Seq<Notification>) -> Seq<NotificationView> {
    v.map_values(|n: Notification| n@)
}

/// Why flattening was refused.
#[derive(PartialEq, Eq, Structural, Debug, Clone, Copy)]
pub enum FlattenError {
    /// A specification in the tree has a version other than 1.
    UnsupportedVersion(u64),
}

/// The mathematical value of a [`BootableToplevel`].
pub struct EntryView {
    pub label: Seq<char>,
    pub kernel: Seq<char>,
    pub kernel_params: Seq<Seq<char>>,
    pub init: Seq<char>,
    pub initrd: Option<Seq<char>>,
    pub toplevel: Seq<char>,
    pub specialisation_name: Option<Seq<char>>,
    pub generation_index: u64,
    pub profile_name: Seq<char>,
}

pub open spec fn opt_str_view(o: Option<String>) -> Option<Seq<char>> {
    match o {
        Some(s) => Some(s@),
        None => None,
    }
}

pub open spec fn strs_view(v: Seq<String>) -> Seq<Seq<char>> {
    v.map_values(|s: String| s@)
}

impl View for BootableToplevel {
    type V = EntryView;

    open spec fn view(&self) -> EntryView {
        EntryView {
            label: self.label@,
            kernel: self.kernel@,
            kernel_params: strs_view(self.kernel_params@),
            init: self.init@,
            initrd: opt_str_view(self.initrd),
            toplevel: self.toplevel@,
            specialisation_name: opt_str_view(self.specialisation_name),
            generation_index: self.generation_index,
            profile_name: self.profile_name@,
        }
    }
}

pub open spec fn entries_view(v: Seq<BootableToplevel>) -> Seq<EntryView> {
    v.map_values(|e: BootableToplevel| e@)
}

/// The entry that one version 1 node gives, tagged with the edge that reached it.
pub open spec fn node_entry(
    v: SpecificationV1,
    index: u64,
    profile: Seq<char>,
    name: Option<Seq<char>>,
) -> EntryView {
    EntryView {
        label: v.label@,
        kernel: v.kernel@,
        kernel_params: strs_view(v.kernel_params@),
        init: v.init@,
        initrd: opt_str_view(v.initrd),
        toplevel: v.toplevel@,
        specialisation_name: name,
        generation_index: index,
        profile_name: profile,
    }
}

} // verus!
