use vstd::prelude::*;
use crate::qos::QosPolicies;

verus! {

#[derive(Clone, Copy, Debug, PartialEq, Eq, Structural)]
pub enum TopicKind {
    WithKey,
    NoKey,
}

/// A named logical stream carrying values of one type.
#[derive(Debug)]
pub struct Topic {
    pub name: String,
    pub data_type_name: String,
    pub qos: QosPolicies,
    pub kind: TopicKind,
}

impl Topic {
    pub fn new(name: &str, data_type_name: &str, qos: &QosPolicies, kind: TopicKind) -> (r: Topic)
        ensures
            r.name@ == name@,
            r.data_type_name@ == data_type_name@,
            r.qos == *qos,
            r.kind == kind,
    {
        Topic { name: name.to_owned(), data_type_name: data_type_name.to_owned(), qos: *qos, kind }
    }

    pub fn get_name(&self) -> (r: &String)
        ensures
            r == &self.name,
    {
        &self.name
    }

    pub fn get_qos(&self) -> (r: QosPolicies)
        ensures
            r == self.qos,
    {
        self.qos
    }
}

} // verus!
