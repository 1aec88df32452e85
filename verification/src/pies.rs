//! The catalogue's items and what the purchase ledger reports.

use vstd::prelude::*;

verus! {

/// One pie of the catalogue, as the engine reads it.
#[derive(Debug, PartialEq, Eq)]
pub struct Pie {
    /// The pie's identity.
    pub id: u64,
    /// The slices that the pie starts with.
    pub slices: u64,
    /// The labels that the pie carries.
    pub labels: Vec<String>,
}

impl Clone for Pie {
    fn clone(&self) -> (copy: Self)
        ensures
            copy.id == self.id,
            copy.slices == self.slices,
            copy.labels@ == self.labels@,
    {
        let mut labels: Vec<String> = Vec::new();
        let mut k: usize = 0;
        while k < self.labels.len()
            invariant
                k <= self.labels@.len(),
                labels@ == self.labels@.take(k as int),
            decreases self.labels@.len() - k,
        {
            labels.push(self.labels[k].clone());
            k += 1;
        }
        Pie { id: self.id, slices: self.slices, labels }
    }
}

/// One line of a pie's purchase ledger.
#[derive(Debug, PartialEq, Eq)]
pub struct Purchase {
    /// The customer.
    pub username: String,
    /// The slices that the customer bought of the pie, all purchases together.
    pub slices: i64,
}

impl Clone for Purchase {
    fn clone(&self) -> (copy: Self)
        ensures
            copy == *self,
    {
        Purchase { username: self.username.clone(), slices: self.slices }
    }
}

} // verus!
