//! Small pieces of state that the terminal interface shows.
use vstd::prelude::*;
use crate::record::{Schema, SchemaType};

verus! {

/// What a filter plugin answers for one record.
#[derive(Debug, Clone, Copy, PartialEq, Eq, Structural, Default)]
pub struct FilterResult {
    /// Whether the record matched the filter.
    pub is_match: bool,
}

impl FilterResult {
    pub fn new(is_match: bool) -> (r: FilterResult)
        ensures
            r.is_match == is_match,
    {
        FilterResult { is_match }
    }
}

#[derive(Debug, Clone, Copy, PartialEq, Eq, Structural)]
pub enum Level {
    Error,
    Warn,
    Info,
    Debug,
    Trace,
}

/// A message shown in a corner of the interface.
#[derive(Debug, Clone, PartialEq, Eq)]
pub struct Notification {
    pub level: Level,
    pub message: String,
}

impl Notification {
    pub fn new(level: Level, message: String) -> (r: Notification)
        ensures
            r.level == level,
            r.message == message,
    {
        Notification { level, message }
    }
}

/// The views of the interface.
#[derive(Debug, Clone, Copy, PartialEq, Eq, Structural, Default)]
pub enum ComponentName {
    Records,
    #[default]
    Topics,
    Header,
    Footer,
    RecordDetails,
    TopicsAndRecords,
    RecordsView,
    TopicDetails,
    Main,
    Search,
    Dialog,
    Help,
    Schemas,
}

pub open spec fn component_label(c: ComponentName) -> Seq<char> {
    match c {
        ComponentName::Records => "Records"@,
        ComponentName::Topics => "Topics"@,
        ComponentName::Header => "Header"@,
        ComponentName::Footer => "Footer"@,
        ComponentName::RecordDetails => "Record"@,
        ComponentName::TopicsAndRecords => "TopicsAndRecords"@,
        ComponentName::RecordsView => "RecordsView"@,
        ComponentName::TopicDetails => "Topic"@,
        ComponentName::Main => "Main"@,
        ComponentName::Search => "Search"@,
        ComponentName::Dialog => "Dialog"@,
        ComponentName::Help => "Help"@,
        ComponentName::Schemas => "Schemas"@,
    }
}

impl ComponentName {
    /// The title of the view: its name, shortened for the two detail views.
    pub fn label(&self) -> (r: String)
        ensures
            r@ == component_label(*self),
    {
        let s = match self {
            ComponentName::Records => "Records",
            ComponentName::Topics => "Topics",
            ComponentName::Header => "Header",
            ComponentName::Footer => "Footer",
            ComponentName::RecordDetails => "Record",
            ComponentName::TopicsAndRecords => "TopicsAndRecords",
            ComponentName::RecordsView => "RecordsView",
            ComponentName::TopicDetails => "Topic",
            ComponentName::Main => "Main",
            ComponentName::Search => "Search",
            ComponentName::Dialog => "Dialog",
            ComponentName::Help => "Help",
            ComponentName::Schemas => "Schemas",
        };
        let mut r = String::new();
        crate::text::push_str(&mut r, s);
        r
    }
}

/// How far the consumption has gone out of how much there is to read.
#[derive(Debug, Clone, Copy, PartialEq, Eq, Structural, Default)]
pub struct ProgressBarComponent {
    pub length: u64,
    pub progress: u64,
}

/// The cells of a bar `width` wide that are filled, by whole percents.
pub open spec fn filled(progress: u64, length: u64, width: u16) -> int {
    if progress == 0 || length == 0 {
        0
    } else {
        width * ((100 * progress as int) / length as int) / 100
    }
}

impl ProgressBarComponent {
    pub fn new(length: u64) -> (r: ProgressBarComponent)
        ensures
            r.length == length && r.progress == 0,
    {
        ProgressBarComponent { length, progress: 0 }
    }

    pub fn set_progress(&mut self, inc: usize)
        ensures
            final(self).progress == inc as u64 && final(self).length == old(self).length,
    {
        self.progress = inc as u64;
    }

    pub fn set_length(&mut self, length: usize)
        ensures
            final(self).length == length as u64 && final(self).progress == old(self).progress,
    {
        self.length = length as u64;
    }

    /// How many cells of a bar `width` wide are filled.
    pub fn filled_width(&self, width: u16) -> (r: u128)
        ensures
            r == filled(self.progress, self.length, width),
    {
        if self.progress == 0 || self.length == 0 {
            return 0;
        }
        let percent: u128 = 100u128 * (self.progress as u128) / (self.length as u128);
        assert(percent <= 100 * self.progress as int);
        assert(percent <= 100 * 0x1_0000_0000_0000_0000) by (nonlinear_arith)
            requires percent <= 100 * self.progress as int, self.progress <= u64::MAX;
        assert((width as int) * (percent as int) <= 0x1_0000 * (100 * 0x1_0000_0000_0000_0000)) by (nonlinear_arith)
            requires percent <= 100 * 0x1_0000_0000_0000_0000, width <= 0xffff;
        (width as u128) * percent / 100
    }
}

/// A schema of the registry, with where it can be read.
#[derive(Debug, Clone, PartialEq, Eq, Default)]
pub struct SchemaDetail {
    pub response: Option<Schema>,
    pub url: String,
    pub id: u32,
}

/// The schemas of a record's key and value.
#[derive(Debug, Clone, PartialEq, Eq, Default)]
pub struct ExportedSchemasDetails {
    pub key: Option<SchemaDetail>,
    pub value: Option<SchemaDetail>,
}

/// A schema as the registry returns it: its text and those it references.
#[derive(Debug, Clone, PartialEq, Eq)]
pub struct MessageSchema {
    pub schemas: Vec<String>,
    pub schema_type: Option<SchemaType>,
}

} // verus!
