//! The checklist a repository is reviewed against.

use vstd::prelude::*;

verus! {

/// One rule of the checklist.
#[derive(Debug, Clone)]
pub struct ChecklistItem {
    pub category: String,
    pub rule: String,
    pub description: String,
    pub severity: String,
}

/// The mathematical shape of a rule.
pub struct ChecklistItemModel {
    pub category: Seq<char>,
    pub rule: Seq<char>,
    pub description: Seq<char>,
    pub severity: Seq<char>,
}

impl View for ChecklistItem {
    type V = ChecklistItemModel;

    open spec fn view(&self) -> ChecklistItemModel {
        ChecklistItemModel {
            category: self.category@,
            rule: self.rule@,
            description: self.description@,
            severity: self.severity@,
        }
    }
}

/// A whole checklist: which files it applies to and its rules.
#[derive(Debug, Clone)]
pub struct ChecklistConfig {
    pub name: String,
    pub description: String,
    pub file_patterns: Vec<String>,
    pub exclude_patterns: Vec<String>,
    pub items: Vec<ChecklistItem>,
}

/// The mathematical shape of a checklist.
pub struct ChecklistConfigModel {
    pub name: Seq<char>,
    pub description: Seq<char>,
    pub file_patterns: Seq<Seq<char>>,
    pub exclude_patterns: Seq<Seq<char>>,
    pub items: Seq<ChecklistItemModel>,
}

impl View for ChecklistConfig {
    type V = ChecklistConfigModel;

    open spec fn view(&self) -> ChecklistConfigModel {
        ChecklistConfigModel {
            name: self.name@,
            description: self.description@,
            file_patterns: self.file_patterns.deep_view(),
            exclude_patterns: self.exclude_patterns.deep_view(),
            items: self.items@.map_values(|it: ChecklistItem| it@),
        }
    }
}

} // verus!
