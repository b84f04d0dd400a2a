//! Telling the protocol of a frame, and reading a frame and the frames embedded
//! in it.

use vstd::prelude::*;
use vstd::string::*;
use crate::decoded::{field_view, fields_view, DecodedField, FieldView};
use crate::frame_645::{is_dlt645, meter_frame_fields, Frame645};
use crate::frame_cco::{is_cco, local_frame_fields, FrameCCO};
use crate::frame_csg::{FrameCsg, is_csg};
use crate::frame_csg_units::frame_fields;
use crate::frame_fun::{hex_frame, lemma_hex_frame_roundtrip, FrameFun};
use crate::frame_moudle::{FrameMoudle, is_moudle};
use crate::frame_speecial::{history_from, SpcialFrame};
use crate::frame_tctask::{is_task, task_fields, TCMeterTask};
use crate::oadmapconfig::TaskOadConfigManager;
use crate::protocol::{
    decoded_item, lemma_fields_view_concat, opaque_field, query_of, FrameAnalisyic, ProtocolInfo,
    DECODE_DEPTH,
};
use crate::text::{hex_concat, str_eq};
use crate::xmlconfig::{ProtocolConfigManager, XmlElement};

verus! {

/// Whether bytes are bare history data under a region.
pub open spec fn is_special(repo: &ProtocolConfigManager, data: Seq<u8>, region: Seq<char>) -> bool {
    data.len() >= 6 && query_of(repo, "CSG13"@, region, Some(1u8)).item(
        hex_concat(data.subrange(2, 6).reverse()),
    ) is Some
}

/// The protocol of a frame: the first of CSG, DLT/645, concentrator, module, task
/// list and bare history data whose form the bytes have.
pub open spec fn protocol_of(repo: &ProtocolConfigManager, frame: Seq<u8>, region: Seq<char>) -> Option<
    ProtocolInfo,
> {
    if is_csg(frame) {
        Some(ProtocolInfo::ProtocolCSG13)
    } else if is_dlt645(frame) {
        Some(ProtocolInfo::ProtocolDLT64507)
    } else if is_cco(frame) {
        Some(ProtocolInfo::ProtocolCSG16)
    } else if is_moudle(frame) {
        Some(ProtocolInfo::ProtocolMoudle)
    } else if is_task(frame) {
        Some(ProtocolInfo::ProtocolMS)
    } else if is_special(repo, frame, region) {
        Some(ProtocolInfo::ProtocolHis)
    } else {
        None
    }
}

/// The bytes of the embedded frame that a field stands for: the field is
/// labelled `FRAMECSG13` or `FRAME645`, has nothing below it, and its data are
/// the bytes of a frame that fits behind its start. `None` for every other field.
pub open spec fn embedded_bytes(f: FieldView) -> Option<Seq<u8>> {
    if (f.frame_domain == "FRAMECSG13"@ || f.frame_domain == "FRAME645"@) && f.children is None {
        match hex_frame(f.data) {
            Some(b) => if f.start + b.len() <= usize::MAX { Some(b) } else { None },
            None => None,
        }
    } else {
        None
    }
}

/// The fields of the embedded frame with the bytes `b` that a field stands for,
/// read by the protocol that the label of the field names.
pub open spec fn embedded_fields(
    repo: &ProtocolConfigManager,
    region: Seq<char>,
    f: FieldView,
    b: Seq<u8>,
) -> Seq<FieldView> {
    if f.frame_domain == "FRAME645"@ {
        meter_frame_fields(repo, region, b, f.start)
    } else {
        frame_fields(repo, region, b, f.start).0
    }
}

/// What stands in the place of a field once the embedded frames are read: the
/// fields of the frame for a field that stands for one, else the field itself
/// with the embedded frames below it read. Frames in frames are read `fuel` deep.
pub open spec fn expanded_field(
    repo: &ProtocolConfigManager,
    region: Seq<char>,
    f: FieldView,
    fuel: nat,
) -> Seq<FieldView>
    decreases fuel, 0nat, 0nat,
{
    if fuel == 0 {
        seq![f]
    } else {
        match embedded_bytes(f) {
            Some(b) => expanded_from(
                repo,
                region,
                embedded_fields(repo, region, f, b),
                0,
                Seq::empty(),
                (fuel - 1) as nat,
            ),
            None => match f.children {
                Some(c) => seq![
                    FieldView {
                        children: Some(
                            expanded_from(repo, region, c, 0, Seq::empty(), (fuel - 1) as nat),
                        ),
                        ..f
                    },
                ],
                None => seq![f],
            },
        }
    }
}

/// The fields from `i` on with their embedded frames read, after those in `acc`.
pub open spec fn expanded_from(
    repo: &ProtocolConfigManager,
    region: Seq<char>,
    fields: Seq<FieldView>,
    i: nat,
    acc: Seq<FieldView>,
    fuel: nat,
) -> Seq<FieldView>
    decreases fuel, 1nat, fields.len() - i,
{
    if i >= fields.len() {
        acc
    } else {
        expanded_from(
            repo,
            region,
            fields,
            i + 1,
            acc + expanded_field(repo, region, fields[i as int], fuel),
            fuel,
        )
    }
}

/// The fields with their embedded frames read.
pub open spec fn expanded(repo: &ProtocolConfigManager, region: Seq<char>, fields: Seq<FieldView>) -> Seq<
    FieldView,
> {
    expanded_from(repo, region, fields, 0, Seq::empty(), DECODE_DEPTH as nat)
}

/// The field that the decoder leaves for an embedded frame, a value of the type
/// `FRAMECSG13` or `FRAME645` over the bytes `content` at `index`, is read as
/// that frame: in its place stand the fields that the decoder of the frames of
/// that protocol gives for those very bytes at that place, with the frames
/// embedded in them read in turn.
pub proof fn lemma_embedded_frame_is_read(
    repo: &ProtocolConfigManager,
    region: Seq<char>,
    label: Seq<char>,
    content: Seq<u8>,
    index: int,
    fuel: nat,
)
    requires
        label == "FRAMECSG13"@ || label == "FRAME645"@,
        0 <= index,
        index + content.len() <= usize::MAX,
        fuel > 0,
    ensures
        expanded_field(
            repo,
            region,
            opaque_field(label, content, index, index + content.len()),
            fuel,
        ) == expanded_from(
            repo,
            region,
            if label == "FRAME645"@ {
                meter_frame_fields(repo, region, content, index)
            } else {
                frame_fields(repo, region, content, index).0
            },
            0,
            Seq::empty(),
            (fuel - 1) as nat,
        ),
{
    lemma_hex_frame_roundtrip(content);
}

/// The fields of a frame of a protocol, before the embedded frames are read: a
/// CSG frame is read as far as it can be read, bare history data as units of the
/// protocol `CSG13` in the upward direction.
pub open spec fn protocol_fields(
    repo: &ProtocolConfigManager,
    oads: &TaskOadConfigManager,
    p: ProtocolInfo,
    frame: Seq<u8>,
    region: Seq<char>,
) -> Seq<FieldView> {
    match p {
        ProtocolInfo::ProtocolCSG13 => frame_fields(repo, region, frame, 0).0,
        ProtocolInfo::ProtocolDLT64507 => meter_frame_fields(repo, region, frame, 0),
        ProtocolInfo::ProtocolCSG16 => local_frame_fields(repo, "CSG16"@, region, frame, 0, false),
        ProtocolInfo::ProtocolMoudle => local_frame_fields(repo, "moudle"@, region, frame, 0, true),
        ProtocolInfo::ProtocolMS => task_fields(repo, oads, region, frame, 0),
        ProtocolInfo::ProtocolHis => history_from(
            query_of(repo, "CSG13"@, region, Some(1u8)),
            false,
            frame,
            0,
            0,
            0,
            Seq::empty(),
        ),
    }
}

/// The name of the protocol of a frame and the fields read from it, with the
/// embedded frames read; `Unknown` and no fields for bytes that have the form
/// of no protocol.
pub open spec fn processed(
    repo: &ProtocolConfigManager,
    oads: &TaskOadConfigManager,
    frame: Seq<u8>,
    region: Seq<char>,
) -> (Seq<char>, Seq<FieldView>) {
    match protocol_of(repo, frame, region) {
        Some(p) => (p.name_spec(), expanded(repo, region, protocol_fields(repo, oads, p, frame, region))),
        None => ("Unknown"@, Seq::empty()),
    }
}

/// What stands in the place of a field once the embedded frames are read.
pub fn expand_field(repo: &ProtocolConfigManager, f: &DecodedField, region: &str, depth: usize) -> (r:
    Vec<DecodedField>)
    requires
        repo.wf(),
    ensures
        fields_view(r@) == expanded_field(repo, region@, field_view(*f), depth as nat),
    decreases depth, 0nat, 0nat,
{
    let mut out: Vec<DecodedField> = Vec::new();
    if depth == 0 {
        out.push(f.duplicate());
        assert(fields_view(out@) =~= seq![field_view(*f)]);
        return out;
    }
    let meter = str_eq(f.frame_domain.as_str(), "FRAME645");
    if (meter || str_eq(f.frame_domain.as_str(), "FRAMECSG13")) && f.children.is_none() {
        match FrameFun::get_hex_frame(f.data.as_str()) {
            Some(bytes) => {
                if bytes.len() <= usize::MAX - f.start {
                    let mut inner: Vec<DecodedField> = Vec::new();
                    assert(fields_view(inner@) =~= Seq::empty());
                    if meter {
                        let _ = Frame645::analysic_645_frame_by_afn(
                            repo,
                            bytes.as_slice(),
                            &mut inner,
                            f.start,
                            region,
                        );
                    } else {
                        let _ = FrameCsg::analysic_csg_frame_by_afn(
                            repo,
                            bytes.as_slice(),
                            &mut inner,
                            f.start,
                            region,
                        );
                    }
                    assert(fields_view(inner@) =~= embedded_fields(
                        repo,
                        region@,
                        field_view(*f),
                        bytes@,
                    ));
                    return expand_fields(repo, &inner, region, depth - 1);
                }
            },
            None => {},
        }
        out.push(f.duplicate());
        assert(fields_view(out@) =~= seq![field_view(*f)]);
        return out;
    }
    match &f.children {
        Some(c) => {
            let below = expand_fields(repo, c, region, depth - 1);
            let color = match &f.color {
                Some(c) => Some(c.clone()),
                None => None,
            };
            let g = DecodedField {
                frame_domain: f.frame_domain.clone(),
                data: f.data.clone(),
                description: f.description.clone(),
                start: f.start,
                end: f.end,
                color,
                children: Some(below),
            };
            out.push(g);
            assert(fields_view(out@) =~= seq![field_view(g)]);
        },
        None => {
            out.push(f.duplicate());
            assert(fields_view(out@) =~= seq![field_view(*f)]);
        },
    }
    out
}

/// The fields with their embedded frames read, frames in frames `depth` deep.
pub fn expand_fields(
    repo: &ProtocolConfigManager,
    fields: &Vec<DecodedField>,
    region: &str,
    depth: usize,
) -> (r: Vec<DecodedField>)
    requires
        repo.wf(),
    ensures
        fields_view(r@) == expanded_from(
            repo,
            region@,
            fields_view(fields@),
            0,
            Seq::empty(),
            depth as nat,
        ),
    decreases depth, 1nat, 0nat,
{
    let ghost all = fields_view(fields@);
    let ghost want = expanded_from(repo, region@, all, 0, Seq::empty(), depth as nat);
    let mut out: Vec<DecodedField> = Vec::new();
    let mut i: usize = 0;
    assert(fields_view(out@) =~= Seq::empty());
    while i < fields.len()
        invariant
            repo.wf(),
            i <= fields.len(),
            all == fields_view(fields@),
            expanded_from(repo, region@, all, i as nat, fields_view(out@), depth as nat) == want,
        decreases fields.len() - i,
    {
        let ghost before = out@;
        let mut part = expand_field(repo, &fields[i], region, depth);
        proof {
            lemma_fields_view_concat(before, part@);
            assert(all[i as int] == field_view(fields@[i as int]));
        }
        out.append(&mut part);
        i += 1;
    }
    out
}

impl FrameAnalisyic {
    /// The protocol of a frame.
    pub fn detect_protocol(repo: &ProtocolConfigManager, frame: &[u8], region: &str) -> (r: Option<
        ProtocolInfo,
    >)
        requires
            repo.wf(),
        ensures
            r == protocol_of(repo, frame@, region@),
    {
        if FrameCsg::is_csg_frame(frame) {
            Some(ProtocolInfo::ProtocolCSG13)
        } else if Frame645::is_dlt645_frame(frame) {
            Some(ProtocolInfo::ProtocolDLT64507)
        } else if FrameCCO::is_cco_frame(frame) {
            Some(ProtocolInfo::ProtocolCSG16)
        } else if FrameMoudle::is_moudle_frame(frame) {
            Some(ProtocolInfo::ProtocolMoudle)
        } else if TCMeterTask::is_meter_task(frame) {
            Some(ProtocolInfo::ProtocolMS)
        } else if SpcialFrame::is_special_frame(repo, frame, region) {
            Some(ProtocolInfo::ProtocolHis)
        } else {
            None
        }
    }

    /// The name of the protocol of a frame, `Unknown` where it has the form of
    /// none.
    pub fn protocol_name(repo: &ProtocolConfigManager, frame: &[u8], region: &str) -> (r: String)
        requires
            repo.wf(),
        ensures
            r@ == (match protocol_of(repo, frame@, region@) {
                Some(p) => p.name_spec(),
                None => "Unknown"@,
            }),
    {
        match Self::detect_protocol(repo, frame, region) {
            Some(p) => p.name().to_owned(),
            None => "Unknown".to_owned(),
        }
    }

    /// The fields with their embedded frames read.
    pub fn expand_embedded(repo: &ProtocolConfigManager, fields: &Vec<DecodedField>, region: &str) -> (r:
        Vec<DecodedField>)
        requires
            repo.wf(),
        ensures
            fields_view(r@) == expanded(repo, region@, fields_view(fields@)),
    {
        expand_fields(repo, fields, region, DECODE_DEPTH)
    }

    /// Decodes an element over a run of bytes and reads the frames embedded in
    /// what it decodes.
    pub fn decode_with_frames(
        repo: &ProtocolConfigManager,
        data_item_elem: &XmlElement,
        protocol: &str,
        region: &str,
        data_segment: &[u8],
        index: usize,
        dir: Option<u8>,
    ) -> (r: Vec<DecodedField>)
        requires
            repo.wf(),
            index + data_segment@.len() <= usize::MAX,
        ensures
            fields_view(r@) == expanded(
                repo,
                region@,
                decoded_item(
                    query_of(repo, protocol@, region@, dir),
                    data_item_elem@,
                    data_segment@,
                    index as int,
                    protocol@ == "DLT/645-2007"@,
                    DECODE_DEPTH as nat,
                ),
            ),
    {
        let fields = Self::prase_data(repo, data_item_elem, protocol, region, data_segment, index, dir);
        Self::expand_embedded(repo, &fields, region)
    }

    /// The name of the protocol of a frame and the fields read from it.
    pub fn process_frame(
        repo: &ProtocolConfigManager,
        oads: &TaskOadConfigManager,
        frame: &[u8],
        region: &str,
    ) -> (r: (String, Vec<DecodedField>))
        requires
            repo.wf(),
        ensures
            (r.0@, fields_view(r.1@)) == processed(repo, oads, frame@, region@),
    {
        let mut fields: Vec<DecodedField> = Vec::new();
        assert(fields_view(fields@) =~= Seq::empty());
        assert(frame.len() <= usize::MAX);
        let protocol = match Self::detect_protocol(repo, frame, region) {
            Some(p) => p,
            None => {
                return ("Unknown".to_owned(), fields);
            },
        };
        match protocol {
            ProtocolInfo::ProtocolCSG13 => {
                let _ = FrameCsg::analysic_csg_frame_by_afn(repo, frame, &mut fields, 0, region);
            },
            ProtocolInfo::ProtocolDLT64507 => {
                let _ = Frame645::analysic_645_frame_by_afn(repo, frame, &mut fields, 0, region);
            },
            ProtocolInfo::ProtocolCSG16 => {
                FrameCCO::analysic_cco_frame_by_afn(repo, frame, &mut fields, 0, region);
            },
            ProtocolInfo::ProtocolMoudle => {
                FrameMoudle::analysic_moudle_frame(repo, frame, &mut fields, 0, region);
            },
            ProtocolInfo::ProtocolMS => {
                let _ = TCMeterTask::analysic_meter_task(repo, oads, frame, &mut fields, 0, region);
            },
            ProtocolInfo::ProtocolHis => {
                let _ = SpcialFrame::analysic_special_frame(repo, frame, &mut fields, 0, region);
            },
        }
        assert(fields_view(fields@) =~= protocol_fields(repo, oads, protocol, frame@, region@));
        let read = Self::expand_embedded(repo, &fields, region);
        (protocol.name().to_owned(), read)
    }
}

} // verus!
