//! The built-in instruction: tops up every account whose balance of an asset is
//! below a threshold, drawing each top-up from a supplier account.
use crate::keys::{
    ExactV, FlexCompositeKey, FlexElem, FlexKeyElem, FlexNodeKey, FlexV, FuzzyCompositeKey,
    FuzzyNodeKey, FuzzyV,
};
use crate::tree::{
    AccountAssetR, AccountAssetV, AccountAssetW, FlexTree, FuzzyTree, NodeValue, Read, ReadSet,
    ViewSet, Write, WriteSet,
};
use vstd::prelude::*;

verus! {

/// Decoded arguments of the supply instruction.
#[derive(Debug, Clone, PartialEq, Eq)]
pub struct SupplyAll {
    /// The asset to supply.
    pub asset: String,
    /// Balances below this are topped up.
    pub threshold: u32,
    /// The amount given to each account below the threshold.
    pub supply_amount: u32,
    /// The account the amounts are drawn from.
    pub supplier: String,
}

impl SupplyAll {
    /// The one pattern the instruction reads: every account's record of the asset.
    pub open spec fn spec_read_request(&self) -> Seq<FuzzyV> {
        seq![(None, Some(self.asset@))]
    }

    /// For each viewed record below the threshold, in order: a Receive of the
    /// amount on that record, then a Send of the amount from the supplier's
    /// record of the asset.
    pub open spec fn spec_write_request(&self, view: Seq<(ExactV, AccountAssetV)>) -> Seq<
        (FlexV, AccountAssetW),
    >
        decreases view.len(),
    {
        if view.len() == 0 {
            Seq::empty()
        } else {
            let prev = self.spec_write_request(view.drop_last());
            let e = view.last();
            if e.1.balance < self.threshold {
                prev.push(
                    ((FlexElem::That(e.0.0), e.0.1), AccountAssetW::Receive(self.supply_amount)),
                ).push(
                    (
                        (FlexElem::That(self.supplier@), self.asset@),
                        AccountAssetW::Send(self.supply_amount),
                    ),
                )
            } else {
                prev
            }
        }
    }

    /// Requests every `(*, asset)` record.
    pub fn read_request(&self) -> (r: ReadSet)
        ensures
            r.patterns() == self.spec_read_request(),
    {
        let mut inner: Vec<(FuzzyNodeKey, NodeValue<Read>)> = Vec::new();
        inner.push(
            (
                FuzzyNodeKey::AccountAsset(FuzzyCompositeKey(None, Some(self.asset.clone()))),
                NodeValue::AccountAsset(AccountAssetR),
            ),
        );
        let r = FuzzyTree(inner);
        assert(r.patterns() =~= self.spec_read_request());
        r
    }

    /// Tops up every viewed record below the threshold from the supplier.
    pub fn write_request(&self, view: &ViewSet) -> (r: WriteSet)
        ensures
            r.entries() == self.spec_write_request(view.entries()),
    {
        let ghost v = view.entries();
        let mut inner: Vec<(FlexNodeKey, NodeValue<Write>)> = Vec::new();
        let mut i: usize = 0;
        assert(FlexTree(inner).entries() =~= self.spec_write_request(v.subrange(0, 0)));
        while i < view.0.len()
            invariant
                i <= view.0.len(),
                v == view.entries(),
                FlexTree(inner).entries() == self.spec_write_request(v.subrange(0, i as int)),
            decreases view.0.len() - i,
        {
            let (key, value) = &view.0[i];
            let crate::keys::NodeKey::AccountAsset(k) = key;
            let NodeValue::AccountAsset(AccountAssetV { balance }) = value;
            proof {
                assert(v.subrange(0, i + 1).drop_last() =~= v.subrange(0, i as int));
                assert(v.subrange(0, i + 1).last() == (k@, AccountAssetV { balance: *balance }));
            }
            if *balance < self.threshold {
                let ghost prev = FlexTree(inner).entries();
                inner.push(
                    (
                        FlexNodeKey::AccountAsset(
                            FlexCompositeKey(FlexKeyElem::That(k.0.clone()), k.1.clone()),
                        ),
                        NodeValue::AccountAsset(AccountAssetW::Receive(self.supply_amount)),
                    ),
                );
                inner.push(
                    (
                        FlexNodeKey::AccountAsset(
                            FlexCompositeKey(
                                FlexKeyElem::That(self.supplier.clone()),
                                self.asset.clone(),
                            ),
                        ),
                        NodeValue::AccountAsset(AccountAssetW::Send(self.supply_amount)),
                    ),
                );
                assert(FlexTree(inner).entries() =~= prev.push(
                    ((FlexElem::That(k.0@), k.1@), AccountAssetW::Receive(self.supply_amount)),
                ).push(
                    (
                        (FlexElem::That(self.supplier@), self.asset@),
                        AccountAssetW::Send(self.supply_amount),
                    ),
                ));
            }
            i = i + 1;
        }
        assert(v.subrange(0, v.len() as int) =~= v);
        FlexTree(inner)
    }
}

} // verus!
