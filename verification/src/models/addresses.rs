//! Copying addresses.

use vstd::prelude::*;

use crate::models::Address;

verus! {

pub fn copy_address(a: &Address) -> (r: Address)
    ensures
        r == *a,
{
    Address {
        name: match &a.name {
            Some(n) => Some(n.clone()),
            None => None,
        },
        email: a.email.clone(),
    }
}

pub fn push_addresses(out: &mut Vec<Address>, list: &Vec<Address>)
    ensures
        final(out)@ == old(out)@ + list@,
{
    let mut i: usize = 0;
    proof {
        assert(out@ + list@.take(0) =~= out@);
    }
    while i < list.len()
        invariant
            i <= list@.len(),
            out@ == old(out)@ + list@.take(i as int),
        decreases list@.len() - i,
    {
        out.push(copy_address(&list[i]));
        i = i + 1;
        proof {
            assert(old(out)@ + list@.take(i as int) =~= (old(out)@ + list@.take(i - 1)).push(
                list@[i - 1],
            ));
        }
    }
    proof {
        assert(list@.take(list@.len() as int) =~= list@);
    }
}

pub fn copy_addresses(list: &Vec<Address>) -> (r: Vec<Address>)
    ensures
        r@ == list@,
{
    let mut out: Vec<Address> = Vec::new();
    push_addresses(&mut out, list);
    proof {
        assert(Seq::<Address>::empty() + list@ =~= list@);
    }
    out
}

} // verus!
