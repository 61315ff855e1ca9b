//! Data associated with the items of a filter.
use crate::config::CuckooConfiguration;
use crate::data_block::{Bytes, DataBlock};
use crate::slot;
use vstd::prelude::*;

verus! {

/// Error type for all [`AssociatedData`] access.
#[derive(Debug)]
pub enum AccessError {
    /// Error due to requesting a field that is available only if a feature is enabled in
    /// [`crate::config::CuckooConfiguration`].
    FeatureNotEnabled(String),
}

impl AccessError {
    /// Whether this says that the feature of the given name is not enabled.
    pub open spec fn is_not_enabled(&self, feature: Seq<char>) -> bool {
        self matches AccessError::FeatureNotEnabled(name) && name@ == feature
    }

    /// The text of the error.
    pub open spec fn text(&self) -> Seq<char> {
        match self {
            AccessError::FeatureNotEnabled(feature) => "Feature ("@ + feature@ + ") not enabled."@,
        }
    }

    /// Describes the error.
    pub fn message(&self) -> (text: String)
        ensures
            text@ == self.text(),
    {
        match self {
            AccessError::FeatureNotEnabled(feature) => {
                let text = "Feature (".to_owned().concat(feature.as_str());
                text.concat(") not enabled.")
            },
        }
    }
}

/// Provides access to data associated with an item in the filter.
///
/// All data is associated by a fingerprint, meaning that collisions (false positives) will also
/// affect the associated data - it might not be related exactly to the requested item, but just to
/// another item that shared the same fingerprint.
///
/// This data is a copy of the data in the filter, meaning it will not be updated when filter data
/// is changed and can be freely moved around.
pub struct AssociatedData {
    data: Vec<u8>,
    configuration: CuckooConfiguration,
}

impl AssociatedData {
    #[verifier::type_invariant]
    spec fn inv(&self) -> bool {
        self.configuration.block_len() <= self.data@.len()
    }

    /// The bytes of the slot that the data was copied from.
    pub closed spec fn bytes(&self) -> Seq<u8> {
        self.data@
    }

    /// The configuration of the filter that the data was copied from.
    pub closed spec fn config(&self) -> CuckooConfiguration {
        self.configuration
    }

    /// Copies the data of a slot.
    pub fn new<T: Bytes>(block: &DataBlock<T>, configuration: CuckooConfiguration) -> (data: Self)
        requires
            configuration.block_len() <= block@.len(),
        ensures
            data.bytes() == block@,
            data.config() == configuration,
    {
        Self { data: vstd::slice::slice_to_vec(block.inner()), configuration }
    }

    /// Returns the fingerprint for this item.
    ///
    /// Generally fingerprint is not very useful on its own, depending on the hasher used for
    /// [`crate::CuckooFilter`].
    #[must_use]
    pub fn get_fingerprint(&self) -> (fingerprint: u32)
        ensures
            fingerprint == self.config().slot(self.bytes()).fingerprint,
    {
        proof {
            use_type_invariant(&*self);
            use_type_invariant(&self.configuration);
        }
        DataBlock::from(self.data.as_slice()).get_fingerprint(&self.configuration).data()
    }

    /// Returns the LRU counter for this item.
    pub fn get_lru_counter(&self) -> (result: Result<u32, AccessError>)
        ensures
            match result {
                Ok(counter) => self.config().lru_field() is Some && counter == self.config().slot(
                    self.bytes(),
                ).lru,
                Err(error) => self.config().lru_field() is None && error.is_not_enabled("LRU"@),
            },
    {
        proof {
            use_type_invariant(&*self);
        }
        match self.configuration.lru_field_config() {
            Some(lru) => Ok(DataBlock::from(self.data.as_slice()).get_lru_counter(lru)),
            None => Err(AccessError::FeatureNotEnabled("LRU".to_owned())),
        }
    }

    /// Returns the custom data for this item, which is the value of its generic counter.
    pub fn get_custom(&self) -> (result: Result<u32, AccessError>)
        ensures
            match result {
                Ok(counter) => self.config().counter_field() is Some && counter
                    == self.config().slot(self.bytes()).counter,
                Err(error) => self.config().counter_field() is None && error.is_not_enabled(
                    "Custom"@,
                ),
            },
    {
        proof {
            use_type_invariant(&*self);
        }
        match self.configuration.counter_field_config() {
            Some(counter) => Ok(DataBlock::from(self.data.as_slice()).get_counter(counter)),
            None => Err(AccessError::FeatureNotEnabled("Custom".to_owned())),
        }
    }

    /// Returns the generic counter for this item.
    pub fn get_counter(&self) -> (result: Result<u32, AccessError>)
        ensures
            match result {
                Ok(counter) => self.config().counter_field() is Some && counter
                    == self.config().slot(self.bytes()).counter,
                Err(error) => self.config().counter_field() is None && error.is_not_enabled(
                    "Counter"@,
                ),
            },
    {
        proof {
            use_type_invariant(&*self);
        }
        match self.configuration.counter_field_config() {
            Some(counter) => Ok(DataBlock::from(self.data.as_slice()).get_counter(counter)),
            None => Err(AccessError::FeatureNotEnabled("Counter".to_owned())),
        }
    }

    /// Returns the stored TTL value for this item.
    ///
    /// This is not a time to live in seconds. This is just a TTL counter, that is decremented by 1
    /// each time [`crate::CuckooFilter::scan_and_update_full`] is called, until it reaches 0.
    pub fn get_stored_ttl_value(&self) -> (result: Result<u32, AccessError>)
        ensures
            match result {
                Ok(ttl) => self.config().ttl_field() is Some && ttl == self.config().slot(
                    self.bytes(),
                ).ttl,
                Err(error) => self.config().ttl_field() is None && error.is_not_enabled("TTL"@),
            },
    {
        proof {
            use_type_invariant(&*self);
        }
        match self.configuration.ttl_field_config() {
            Some(ttl) => Ok(DataBlock::from(self.data.as_slice()).get_ttl(ttl)),
            None => Err(AccessError::FeatureNotEnabled("TTL".to_owned())),
        }
    }
}

/// Provides mutable access to data associated with an item in the filter.
///
/// All data is associated by a fingerprint, meaning that collisions (false positives) will also
/// affect the associated data - it might not be related exactly to the requested item, but just to
/// another item that shared the same fingerprint.
pub struct AssociatedDataMut<'a> {
    /// The slot.
    pub data: DataBlock<&'a mut [u8]>,
    /// The configuration of the filter that holds the slot.
    pub configuration: CuckooConfiguration,
}

impl<'a> AssociatedDataMut<'a> {
    /// Whether the slot is as long as its configuration says.
    pub open(crate) spec fn wf(&self) -> bool {
        self.configuration.inv() && self.configuration.block_len() <= self.bytes().len()
    }

    /// The bytes of the slot.
    pub open spec fn bytes(&self) -> Seq<u8> {
        self.data@
    }

    /// The configuration of the filter that holds the slot.
    pub open spec fn config(&self) -> CuckooConfiguration {
        self.configuration
    }

    /// Gives access to a slot.
    pub fn new(
        data: DataBlock<&'a mut [u8]>,
        configuration: CuckooConfiguration,
    ) -> (access: Self)
        requires
            configuration.block_len() <= data@.len(),
        ensures
            access.wf(),
            access.data == data,
            access.configuration == configuration,
    {
        proof {
            use_type_invariant(&configuration);
        }
        Self { data, configuration }
    }

    /// Provides read-only access to the data represented by this [`AssociatedDataMut`].
    #[must_use]
    pub fn read(&self) -> (data: AssociatedData)
        requires
            self.wf(),
        ensures
            data.bytes() == self.bytes(),
            data.config() == self.config(),
    {
        AssociatedData::new(&self.data, self.configuration)
    }

    /// Increments the LRU counter for this item.
    pub fn inc_lru_counter(&mut self) -> (result: Result<(), AccessError>)
        requires
            old(self).wf(),
        ensures
            final(self).wf(),
            final(self).config() == old(self).config(),
            match result {
                Ok(_) => {
                    &&& old(self).config().lru_field() is Some
                    &&& final(self).config().slot(final(self).bytes()) == old(
                        self,
                    ).config().lru_incremented(old(self).config().slot(old(self).bytes()))
                    &&& old(self).config().lru_field() matches Some((lru, field)) && field.stored(
                        old(self).bytes(),
                        final(self).bytes(),
                        slot::raised(field.value(old(self).bytes()), lru.increment, field.max()),
                    )
                },
                Err(error) => {
                    &&& old(self).config().lru_field() is None
                    &&& error.is_not_enabled("LRU"@)
                    &&& final(self).bytes() == old(self).bytes()
                },
            },
            final(final(self).data.0)@ == final(old(self).data.0)@,
    {
        let configuration = self.configuration;
        match configuration.lru_field_config() {
            Some(lru) => {
                let ghost before = self.data@;
                self.data.inc_lru_counter(lru);
                proof {
                    slot::lemma_stored_lru(
                        configuration,
                        *lru,
                        before,
                        self.data@,
                        lru.1.value(self.data@),
                    );
                }
                Ok(())
            },
            None => Err(AccessError::FeatureNotEnabled("LRU".to_owned())),
        }
    }

    /// Sets the TTL value for this item.
    ///
    /// This is not a time to live in seconds. This is just a TTL counter, that is decremented by 1
    /// each time [`crate::CuckooFilter::scan_and_update_full`] is called, until it reaches 0.
    pub fn set_ttl_value(&mut self, ttl: u32) -> (result: Result<(), AccessError>)
        requires
            old(self).wf(),
        ensures
            final(self).wf(),
            final(self).config() == old(self).config(),
            match result {
                Ok(_) => {
                    &&& old(self).config().ttl_field() is Some
                    &&& final(self).config().slot(final(self).bytes()) == old(
                        self,
                    ).config().ttl_set(old(self).config().slot(old(self).bytes()), ttl)
                    &&& old(self).config().ttl_field() matches Some((_, field)) && field.stored(
                        old(self).bytes(),
                        final(self).bytes(),
                        ttl & field.max(),
                    )
                },
                Err(error) => {
                    &&& old(self).config().ttl_field() is None
                    &&& error.is_not_enabled("TTL"@)
                    &&& final(self).bytes() == old(self).bytes()
                },
            },
            final(final(self).data.0)@ == final(old(self).data.0)@,
    {
        let configuration = self.configuration;
        match configuration.ttl_field_config() {
            Some(field) => {
                let ghost before = self.data@;
                self.data.set_ttl(field, ttl);
                proof {
                    slot::lemma_stored_ttl(
                        configuration,
                        *field,
                        before,
                        self.data@,
                        ttl & field.1.max(),
                    );
                }
                Ok(())
            },
            None => Err(AccessError::FeatureNotEnabled("TTL".to_owned())),
        }
    }
}

} // verus!
