use crate::error::Error;
use vstd::prelude::*;

verus! {

/// Per-channel gains from the configured list: one gain per channel as
/// given, or a single gain repeated for every channel. Any other length is
/// an invalid argument.
pub fn channel_gains<T: Copy>(gain_db: &Vec<T>, channels: usize) -> (r: Result<Vec<T>, Error>)
    ensures
        r is Ok <==> (gain_db.len() == channels || gain_db.len() == 1),
        r is Err ==> r->Err_0 is InvalidArgument,
        gain_db.len() == channels ==> r is Ok && r->Ok_0@ == gain_db@,
        gain_db.len() == 1 ==> r is Ok && r->Ok_0@ == Seq::new(channels as nat, |i: int| gain_db@[0]),
{
    if gain_db.len() == channels {
        let mut r: Vec<T> = Vec::with_capacity(channels);
        let mut i: usize = 0;
        while i < channels
            invariant
                i <= channels,
                gain_db.len() == channels,
                r@ == gain_db@.take(i as int),
            decreases channels - i,
        {
            r.push(gain_db[i]);
            i += 1;
            proof {
                assert(r@ =~= gain_db@.take(i as int));
            }
        }
        proof {
            assert(r@ =~= gain_db@);
            if gain_db.len() == 1 {
                assert(r@ =~= Seq::new(channels as nat, |i: int| gain_db@[0]));
            }
        }
        Ok(r)
    } else if gain_db.len() == 1 {
        let g = gain_db[0];
        let mut r: Vec<T> = Vec::with_capacity(channels);
        let mut i: usize = 0;
        while i < channels
            invariant
                i <= channels,
                r@ == Seq::new(i as nat, |j: int| g),
            decreases channels - i,
        {
            r.push(g);
            i += 1;
            proof {
                assert(r@ =~= Seq::new(i as nat, |j: int| g));
            }
        }
        Ok(r)
    } else {
        Err(Error::InvalidArgument("gain.len() must be 1 or number of channels.".to_owned()))
    }
}

} // verus!
