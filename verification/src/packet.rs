//! One typed, optionally-headered message.

use vstd::prelude::*;
use vstd::utf8::encode_utf8;
use crate::error::PacketError;
use crate::options::OptionsView;
use crate::options::PacketOptions;
use crate::packet_type::PacketType;
use crate::raw_data::MAX_PACKET_SIZE;
use crate::raw_data::RawData;
use crate::raw_data::RawDataView;

verus! {

/// The mathematical content of a `Packet`.
pub struct PacketView {
    /// The kind of the packet.
    pub ptype: PacketType,
    /// The header, where there is one.
    pub options: Option<OptionsView>,
    /// The payload, where there is one.
    pub payload: Option<RawDataView>,
}

impl PacketView {
    /// The header is well formed and the payload within the size limit.
    pub open spec fn wf(self) -> bool {
        &&& self.options matches Some(o) ==> o.wf()
        &&& self.payload matches Some(d) ==> d.size() <= MAX_PACKET_SIZE
    }
}

/// A protocol packet: its type, its options and its data.
#[derive(Debug, PartialEq, Eq)]
pub struct Packet {
    ptype: PacketType,
    options: Option<PacketOptions>,
    data: Option<RawData>,
}

impl View for Packet {
    type V = PacketView;

    closed spec fn view(&self) -> PacketView {
        PacketView {
            ptype: self.ptype,
            options: match self.options {
                Some(o) => Some(o@),
                None => None,
            },
            payload: match self.data {
                Some(d) => Some(d@),
                None => None,
            },
        }
    }
}

impl Clone for Packet {
    /// A copy with the same content.
    fn clone(&self) -> (copy: Self)
        ensures
            copy@ == self@,
    {
        proof {
            use_type_invariant(self);
        }
        Packet {
            ptype: self.ptype,
            options: self.options,
            data: match &self.data {
                Some(d) => Some(d.clone()),
                None => None,
            },
        }
    }
}

impl Packet {
    /// The payload, where present, is within the size limit, and the
    /// options, where present, satisfy their own invariant. Every value of
    /// the type satisfies this.
    #[verifier::type_invariant]
    pub closed spec fn inv(self) -> bool {
        &&& self.options matches Some(o) ==> o.inv()
        &&& self.data matches Some(d) ==> d@.size() <= MAX_PACKET_SIZE
    }

    /// The content of a packet that satisfies the invariant is well formed.
    pub proof fn lemma_inv_wf(self)
        requires
            self.inv(),
        ensures
            self@.wf(),
    {
        if self.options is Some {
            self.options->0.lemma_inv_wf();
        }
    }

    /// An empty packet of the given type.
    pub fn new(ptype: PacketType) -> (p: Self)
        ensures
            p@ == (PacketView { ptype, options: None, payload: None }),
            p@.wf(),
    {
        Packet { ptype, options: None, data: None }
    }

    /// The packet's type.
    pub fn _type(&self) -> (t: &PacketType)
        ensures
            *t == self@.ptype,
    {
        &self.ptype
    }

    /// The packet's options, if any.
    pub fn options(&self) -> (o: Option<&PacketOptions>)
        ensures
            match o {
                Some(options) => self@.options == Some(options@),
                None => self@.options is None,
            },
    {
        match &self.options {
            Some(o) => Some(o),
            None => None,
        }
    }

    /// Sets the packet's options.
    pub fn with_options(&mut self, options: PacketOptions)
        ensures
            final(self)@ == (PacketView { options: Some(options@), ..old(self)@ }),
            final(self)@.wf(),
    {
        proof {
            use_type_invariant(&*self);
            use_type_invariant(&options);
            options.lemma_inv_wf();
            self.lemma_inv_wf();
        }
        self.options = Some(options);
    }

    /// The packet's data, if any.
    pub fn data(&self) -> (d: Option<&RawData>)
        ensures
            match d {
                Some(data) => self@.payload == Some(data@),
                None => self@.payload is None,
            },
    {
        match &self.data {
            Some(d) => Some(d),
            None => None,
        }
    }

    /// Sets the packet's data. Data larger than `MAX_PACKET_SIZE` is
    /// refused and leaves the packet as it was.
    pub fn with_data(&mut self, data: RawData) -> (r: Result<(), PacketError>)
        ensures
            data@.size() <= MAX_PACKET_SIZE ==> r is Ok && final(self)@ == (PacketView {
                payload: Some(data@),
                ..old(self)@
            }),
            data@.size() > MAX_PACKET_SIZE ==> r == Err::<(), PacketError>(
                PacketError::DataTooLarge,
            ) && *final(self) == *old(self),
            final(self)@.wf(),
    {
        proof {
            use_type_invariant(&*self);
            self.lemma_inv_wf();
        }
        if data.len() > MAX_PACKET_SIZE {
            return Err(PacketError::DataTooLarge);
        }
        self.data = Some(data);
        Ok(())
    }

    /// The conventional error packet: type `Error`, no options, `message`
    /// as text payload.
    pub fn error(message: &str) -> (p: Self)
        requires
            encode_utf8(message@).len() <= MAX_PACKET_SIZE,
        ensures
            p@ == (PacketView {
                ptype: PacketType::Error,
                options: None,
                payload: Some(RawDataView::Text(message@)),
            }),
            p@.wf(),
    {
        Packet {
            ptype: PacketType::Error,
            options: None,
            data: Some(RawData::Text(message.to_owned())),
        }
    }
}

} // verus!
