//! Front-end state: which list has focus, what is selected, the text typed
//! into the two input fields, and how each key press changes them.
use vstd::prelude::*;

use crate::net::{expand_targets, split_targets};
use crate::store::{HostKey, ResultStore};

verus! {

/// The three panes that can hold the keyboard focus.
#[derive(Clone, Copy, Debug, PartialEq, Eq, Structural)]
pub enum FocusZone {
    AddressList,
    PortList,
    InputList,
}

/// A key press, as far as the front end tells keys apart.
#[derive(Clone, Copy, Debug, PartialEq, Eq, Structural)]
pub enum Key {
    Char(char),
    Tab,
    Up,
    Down,
    Enter,
    Backspace,
    Other,
}

/// What a scan run is started with: the target tokens and the port
/// specification.
#[derive(Clone, Debug)]
pub struct ScanRequest {
    pub targets: Vec<String>,
    pub ports: String,
}

pub struct App {
    /// Hosts in the result list, as last copied from the store.
    pub targets: Vec<HostKey>,
    /// Port specification of the run last started.
    pub ports: String,
    pub targets_selected: usize,
    /// Copy of the result store taken at the last tick.
    pub port_results: ResultStore,
    pub port_results_selected: usize,
    pub input_selected: usize,
    pub focus_zone: FocusZone,
    pub exit: bool,
    pub input_trigger: bool,
    pub ready_to_run: bool,
    pub input_mode: bool,
    pub target_input: String,
    pub port_input: String,
    /// Number of addresses the targets of the last run expand to.
    pub total_targets: usize,
}

/// Relies on `String::push`: appends one character.
#[verifier::external_body]
fn push_char(s: &mut String, c: char)
    ensures
        final(s)@ == old(s)@.push(c),
{
    s.push(c)
}

/// Relies on `String::pop`: removes and returns the last character, if any.
#[verifier::external_body]
fn pop_char(s: &mut String) -> (r: Option<char>)
    ensures
        old(s)@.len() == 0 ==> r is None && final(s)@ == old(s)@,
        old(s)@.len() > 0 ==> r == Some(old(s)@.last()) && final(s)@ == old(s)@.drop_last(),
{
    s.pop()
}

impl App {
    pub open spec fn wf(self) -> bool {
        self.port_results.wf()
    }

    /// Number of results of the selected host, when it is in the store.
    pub open spec fn selected_count(self) -> Option<nat> {
        if self.targets_selected < self.targets@.len() && self.port_results@.contains_key(
            self.targets@[self.targets_selected as int],
        ) {
            Some(self.port_results@[self.targets@[self.targets_selected as int]].len())
        } else {
            None
        }
    }

    /// The state after `key` is pressed outside input mode.
    pub open spec fn after_key(self, key: Key) -> App {
        match key {
            Key::Char(c) => if c == 'q' {
                App { exit: true, ..self }
            } else if c == 'e' {
                App { ready_to_run: true, ..self }
            } else {
                self
            },
            Key::Tab => match self.focus_zone {
                FocusZone::AddressList => App {
                    port_results_selected: 0,
                    focus_zone: FocusZone::PortList,
                    ..self
                },
                FocusZone::PortList => App {
                    input_selected: 0,
                    focus_zone: FocusZone::InputList,
                    ..self
                },
                FocusZone::InputList => App {
                    targets_selected: 0,
                    focus_zone: FocusZone::AddressList,
                    ..self
                },
            },
            Key::Up => match self.focus_zone {
                FocusZone::AddressList => if self.targets_selected > 0 {
                    App { targets_selected: (self.targets_selected - 1) as usize, ..self }
                } else {
                    self
                },
                FocusZone::PortList => if self.selected_count() is Some
                    && self.port_results_selected > 0 {
                    App { port_results_selected: (self.port_results_selected - 1) as usize, ..self }
                } else {
                    self
                },
                FocusZone::InputList => if self.input_selected > 0 {
                    App { input_selected: (self.input_selected - 1) as usize, ..self }
                } else {
                    self
                },
            },
            Key::Down => match self.focus_zone {
                FocusZone::AddressList => if self.targets_selected + 1 < self.targets@.len() {
                    App { targets_selected: (self.targets_selected + 1) as usize, ..self }
                } else {
                    self
                },
                FocusZone::PortList => match self.selected_count() {
                    Some(n) => if self.port_results_selected + 1 < n {
                        App {
                            port_results_selected: (self.port_results_selected + 1) as usize,
                            ..self
                        }
                    } else {
                        self
                    },
                    None => self,
                },
                FocusZone::InputList => if self.input_selected + 1 < 2 {
                    App { input_selected: (self.input_selected + 1) as usize, ..self }
                } else {
                    self
                },
            },
            Key::Enter => App { input_trigger: !self.input_trigger, input_mode: true, ..self },
            _ => self,
        }
    }

    /// A fresh front end: nothing typed, nothing listed, focus on the input
    /// fields.
    pub fn init() -> (r: App)
        ensures
            r.wf(),
            r.targets@.len() == 0,
            r.port_results@.len() == 0,
            r.ports@.len() == 0,
            r.target_input@.len() == 0,
            r.port_input@.len() == 0,
            r.targets_selected == 0,
            r.port_results_selected == 0,
            r.input_selected == 0,
            r.focus_zone == FocusZone::InputList,
            !r.exit && !r.input_trigger && !r.ready_to_run && !r.input_mode,
            r.total_targets == 0,
    {
        App {
            targets: Vec::new(),
            ports: String::new(),
            targets_selected: 0,
            port_results: ResultStore::new(),
            port_results_selected: 0,
            input_selected: 0,
            focus_zone: FocusZone::InputList,
            exit: false,
            input_trigger: false,
            ready_to_run: false,
            input_mode: false,
            target_input: String::new(),
            port_input: String::new(),
            total_targets: 0,
        }
    }

    /// Number of results of the selected host, when it is in the store.
    fn selected_result_count(&self) -> (r: Option<usize>)
        requires
            self.wf(),
        ensures
            match r {
                Some(n) => self.selected_count() == Some(n as nat),
                None => self.selected_count() is None,
            },
    {
        if self.targets_selected < self.targets.len() {
            match self.port_results.get(&self.targets[self.targets_selected]) {
                Some(v) => Some(v.len()),
                None => None,
            }
        } else {
            None
        }
    }

    /// Applies a key pressed outside input mode: `q` quits, `e` asks for a
    /// run, Tab moves the focus on, Up and Down move the selection of the
    /// focused list within its bounds, Enter enters input mode.
    pub fn handle_key_event(&mut self, key: Key)
        requires
            old(self).wf(),
        ensures
            *final(self) == old(self).after_key(key),
            final(self).wf(),
    {
        match key {
            Key::Char(c) => {
                if c == 'q' {
                    self.exit = true;
                } else if c == 'e' {
                    self.ready_to_run = true;
                }
            },
            Key::Tab => {
                match self.focus_zone {
                    FocusZone::AddressList => {
                        self.port_results_selected = 0;
                        self.focus_zone = FocusZone::PortList;
                    },
                    FocusZone::PortList => {
                        self.input_selected = 0;
                        self.focus_zone = FocusZone::InputList;
                    },
                    FocusZone::InputList => {
                        self.targets_selected = 0;
                        self.focus_zone = FocusZone::AddressList;
                    },
                }
            },
            Key::Up => {
                match self.focus_zone {
                    FocusZone::AddressList => {
                        if self.targets_selected > 0 {
                            self.targets_selected = self.targets_selected - 1;
                        }
                    },
                    FocusZone::PortList => {
                        if self.selected_result_count().is_some() {
                            if self.port_results_selected > 0 {
                                self.port_results_selected = self.port_results_selected - 1;
                            }
                        }
                    },
                    FocusZone::InputList => {
                        if self.input_selected > 0 {
                            self.input_selected = self.input_selected - 1;
                        }
                    },
                }
            },
            Key::Down => {
                match self.focus_zone {
                    FocusZone::AddressList => {
                        if self.targets_selected < self.targets.len()
                            && self.targets.len() - self.targets_selected > 1 {
                            self.targets_selected = self.targets_selected + 1;
                        }
                    },
                    FocusZone::PortList => {
                        match self.selected_result_count() {
                            Some(n) => {
                                if self.port_results_selected < n && n - self.port_results_selected
                                    > 1 {
                                    self.port_results_selected = self.port_results_selected + 1;
                                }
                            },
                            None => {},
                        }
                    },
                    FocusZone::InputList => {
                        if self.input_selected < 1 {
                            self.input_selected = self.input_selected + 1;
                        }
                    },
                }
            },
            Key::Enter => {
                self.input_trigger = !self.input_trigger;
                self.input_mode = true;
            },
            _ => {},
        }
    }

    /// The state after `key` is pressed in input mode.
    pub open spec fn after_input_key(self, key: Key) -> (Seq<char>, Seq<char>, bool, bool) {
        let t = self.target_input@;
        let p = self.port_input@;
        match key {
            Key::Enter => (t, p, !self.input_trigger, false),
            Key::Char(c) => if self.input_selected == 0 {
                (t.push(c), p, self.input_trigger, self.input_mode)
            } else if self.input_selected == 1 {
                (t, p.push(c), self.input_trigger, self.input_mode)
            } else {
                (t, p, self.input_trigger, self.input_mode)
            },
            Key::Backspace => if self.input_selected == 0 && t.len() > 0 {
                (t.drop_last(), p, self.input_trigger, self.input_mode)
            } else if self.input_selected == 1 && p.len() > 0 {
                (t, p.drop_last(), self.input_trigger, self.input_mode)
            } else {
                (t, p, self.input_trigger, self.input_mode)
            },
            _ => (t, p, self.input_trigger, self.input_mode),
        }
    }

    /// Applies a key pressed in input mode: characters go to the selected
    /// field, Backspace removes its last character, Enter leaves input
    /// mode. Nothing else changes.
    pub fn handle_input_event(&mut self, key: Key)
        requires
            old(self).wf(),
        ensures
            final(self).wf(),
            old(self).after_input_key(key) == (
                final(self).target_input@,
                final(self).port_input@,
                final(self).input_trigger,
                final(self).input_mode,
            ),
            final(self).targets == old(self).targets,
            final(self).ports == old(self).ports,
            final(self).port_results == old(self).port_results,
            final(self).targets_selected == old(self).targets_selected,
            final(self).port_results_selected == old(self).port_results_selected,
            final(self).input_selected == old(self).input_selected,
            final(self).focus_zone == old(self).focus_zone,
            final(self).exit == old(self).exit,
            final(self).ready_to_run == old(self).ready_to_run,
            final(self).total_targets == old(self).total_targets,
    {
        match key {
            Key::Enter => {
                self.input_trigger = !self.input_trigger;
                self.input_mode = false;
            },
            Key::Char(c) => {
                if self.input_selected == 0 {
                    push_char(&mut self.target_input, c);
                } else if self.input_selected == 1 {
                    push_char(&mut self.port_input, c);
                }
            },
            Key::Backspace => {
                if self.input_selected == 0 {
                    pop_char(&mut self.target_input);
                } else if self.input_selected == 1 {
                    pop_char(&mut self.port_input);
                }
            },
            _ => {},
        }
    }

    /// Copies a snapshot of the store: the listed hosts become its keys, in
    /// its entry order, and its results become the ones shown.
    pub fn on_tick(&mut self, snapshot: ResultStore)
        requires
            old(self).wf(),
            snapshot.wf(),
        ensures
            final(self).wf(),
            final(self).port_results == snapshot,
            final(self).targets@.len() == snapshot@.len(),
            forall|i: int|
                0 <= i < final(self).targets@.len() ==> snapshot@.contains_key(
                    #[trigger] final(self).targets@[i],
                ),
            forall|k: HostKey| #[trigger]
                snapshot@.contains_key(k) ==> final(self).targets@.contains(k),
    {
        let entries = snapshot.entries();
        let mut keys: Vec<HostKey> = Vec::new();
        let mut i: usize = 0;
        while i < entries.len()
            invariant
                i <= entries@.len(),
                entries@ == snapshot.entry_list(),
                keys@.len() == i,
                forall|j: int| 0 <= j < i ==> keys@[j] == #[trigger] entries@[j].key,
            decreases entries@.len() - i,
        {
            keys.push(entries[i].key);
            i = i + 1;
        }
        proof {
            snapshot.lemma_dom_is_keys();
            assert forall|j: int| 0 <= j < keys@.len() implies snapshot@.contains_key(
                #[trigger] keys@[j],
            ) by {
                assert(snapshot.entry_list()[j].key == keys@[j]);
            }
        }
        self.targets = keys;
        self.port_results = snapshot;
    }

    /// Starts a run when one was asked for: splits the typed targets into
    /// tokens, counts the addresses they expand to, takes the typed port
    /// specification, and clears the request.
    pub fn begin_scan(&mut self) -> (r: Option<ScanRequest>)
        requires
            old(self).wf(),
        ensures
            final(self).wf(),
            !final(self).ready_to_run,
            old(self).ready_to_run ==> r is Some,
            !old(self).ready_to_run ==> r is None && *final(self) == *old(self),
            match r {
                Some(q) => {
                    &&& crate::net::token_views(q.targets@) == crate::net::split_spaces(
                        old(self).target_input@,
                    )
                    &&& q.ports@ == old(self).port_input@
                    &&& final(self).ports@ == old(self).port_input@
                    &&& final(self).total_targets == crate::net::targets_addresses(
                        crate::net::token_views(q.targets@),
                    ).len()
                },
                None => true,
            },
    {
        if !self.ready_to_run {
            return None;
        }
        let targets = split_targets(self.target_input.as_str());
        let addresses = expand_targets(&targets);
        self.total_targets = addresses.len();
        self.ports = self.port_input.clone();
        self.ready_to_run = false;
        Some(ScanRequest { targets, ports: self.port_input.clone() })
    }
}

} // verus!
