//! A value that is kept in a file and read when it is first needed.
//!
//! The library holds the value and decides when the file is to be read and
//! what is to be written; the caller reads and writes.

use vstd::prelude::*;

verus! {

/// A value of type `V` that lives in the file at `path`.
#[derive(Debug)]
pub struct Config<V> {
    pub value: Option<V>,
    pub path: String,
}

/// How reading the file of a value went.
#[derive(Debug)]
pub enum ReadOutcome<V> {
    /// There is no such file.
    Missing,
    /// The file is there but could not be read; with the message of the
    /// system, for the log.
    Failed(String),
    /// The file was read, but its content is not a value.
    Corrupt,
    /// The value in the file.
    Parsed(V),
}

impl<V> Config<V> {
    /// The value in the file at `path`, not read yet.
    pub fn new(path: String) -> (r: Self)
        ensures
            r.value is None,
            r.path == path,
    {
        Self { value: None, path }
    }

    /// The value after its file has been read: what the file holds, or
    /// `fallback` where there is no file, the file cannot be read or its
    /// content is not a value. Nothing that can happen to the file is
    /// fatal.
    pub fn load_from_file(outcome: ReadOutcome<V>, fallback: V) -> (r: V)
        ensures
            r == match outcome {
                ReadOutcome::Parsed(value) => value,
                _ => fallback,
            },
    {
        match outcome {
            ReadOutcome::Parsed(value) => value,
            _ => fallback,
        }
    }

    /// The path of the file to read before the value can be had; none once
    /// the value is there.
    pub fn pending_read(&self) -> (r: Option<&String>)
        ensures
            match r {
                Some(path) => self.value is None && *path == self.path,
                None => self.value is Some,
            },
    {
        if self.value.is_none() {
            Some(&self.path)
        } else {
            None
        }
    }

    /// Takes in the outcome of reading the file: the value is what the
    /// file holds, or `fallback`. The first value that comes in stays.
    pub fn supply(&mut self, outcome: ReadOutcome<V>, fallback: V)
        ensures
            final(self).path == old(self).path,
            final(self).value == match old(self).value {
                Some(value) => Some(value),
                None => Some(
                    match outcome {
                        ReadOutcome::Parsed(value) => value,
                        _ => fallback,
                    },
                ),
            },
    {
        if self.value.is_none() {
            self.value = Some(Self::load_from_file(outcome, fallback));
        }
    }

    /// The value, to read or change, once it is there.
    pub fn get_mut(&mut self) -> (r: Option<&mut V>)
        ensures
            final(self).path == old(self).path,
            match r {
                Some(value) => old(self).value == Some(*value) && final(self).value == Some(
                    *final(value),
                ),
                None => old(self).value is None && final(self).value is None,
            },
    {
        match &mut self.value {
            Some(value) => Some(value),
            None => None,
        }
    }

    /// What is to be written, and where: the value, if it was ever read.
    pub fn flush_changes(&self) -> (r: Option<(&String, &V)>)
        ensures
            match r {
                Some((path, value)) => *path == self.path && self.value == Some(*value),
                None => self.value is None,
            },
    {
        match &self.value {
            Some(value) => Some((&self.path, value)),
            None => None,
        }
    }
}

} // verus!
