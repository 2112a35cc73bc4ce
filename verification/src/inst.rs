//! A plain instance: a module name, an instance name and a list of ports,
//! without parameters or guards.
use crate::port::binding_line;
use crate::port::signal_text;
use crate::port::PortDir;
use crate::port::VerilogPort;
use crate::text::views;
use crate::width::Width;
use vstd::prelude::*;

verus! {

/// An instance of a module.
#[derive(Debug)]
pub struct VerilogInst {
    pub inst_name: String,
    pub module_name: String,
    pub port_list: Vec<VerilogPort>,
    pub max_port_name_len: u32,
}

/// The lines of an instance: the names, the binding of each port, the
/// last without a comma, and the closing line.
pub open spec fn instance_lines(
    module_name: Seq<char>,
    inst_name: Seq<char>,
    ports: Seq<VerilogPort>,
) -> Seq<Seq<char>> {
    seq![module_name + " "@ + inst_name + " ("@] + Seq::new(
        ports.len(),
        |i: int|
            binding_line(ports[i].name@, signal_text(ports[i].fragments()), i == ports.len() - 1),
    ) + seq![");"@]
}

impl VerilogInst {
    /// An instance of `module_name` called `u_` and that name.
    pub fn new(module_name: &str) -> (r: VerilogInst)
        ensures
            r.inst_name@ == "u_"@ + module_name@,
            r.module_name@ == module_name@,
            r.port_list@.len() == 0,
            r.max_port_name_len == 0,
    {
        let mut inst_name = String::from_str("u_");
        inst_name.append(module_name);
        VerilogInst {
            inst_name,
            module_name: String::from_str(module_name),
            port_list: Vec::new(),
            max_port_name_len: 0,
        }
    }

    /// Adds a port of `width` bits without fragments.
    pub fn add_port(&mut self, inout: PortDir, name: &str, width: u32)
        ensures
            final(self).port_list@.len() == old(self).port_list@.len() + 1,
            final(self).port_list@.drop_last() == old(self).port_list@,
            final(self).port_list@.last().wf(),
            final(self).port_list@.last().inout == inout,
            final(self).port_list@.last().name@ == name@,
            final(self).port_list@.last().width == Width::RawWidth(width as usize),
            final(self).port_list@.last().fragments() == seq![crate::port::Fragment::NONE],
            final(self).inst_name == old(self).inst_name,
            final(self).module_name == old(self).module_name,
    {
        self.port_list.push(VerilogPort::new(inout, name, Width::RawWidth(width as usize)));
        assert(self.port_list@.drop_last() =~= old(self).port_list@);
    }

    /// Names the instance.
    pub fn fix_inst_name(&mut self, inst_name: &str)
        ensures
            final(self).inst_name@ == inst_name@,
            final(self).module_name == old(self).module_name,
            final(self).port_list == old(self).port_list,
    {
        self.inst_name = String::from_str(inst_name);
    }

    /// The lines of the instance.
    pub fn to_string(&self) -> (r: Vec<String>)
        ensures
            views(r@) == instance_lines(self.module_name@, self.inst_name@, self.port_list@),
    {
        let mut res: Vec<String> = Vec::new();
        let mut line = self.module_name.clone();
        line.append(" ");
        line.append(self.inst_name.as_str());
        line.append(" (");
        res.push(line);
        let ghost head = seq![self.module_name@ + " "@ + self.inst_name@ + " ("@];
        let ghost lines = Seq::new(
            self.port_list@.len(),
            |i: int|
                binding_line(
                    self.port_list@[i].name@,
                    signal_text(self.port_list@[i].fragments()),
                    i == self.port_list@.len() - 1,
                ),
        );
        assert(views(res@) =~= head + lines.take(0));
        let mut i: usize = 0;
        while i < self.port_list.len()
            invariant
                i <= self.port_list@.len(),
                lines == Seq::new(
                    self.port_list@.len(),
                    |i: int|
                        binding_line(
                            self.port_list@[i].name@,
                            signal_text(self.port_list@[i].fragments()),
                            i == self.port_list@.len() - 1,
                        ),
                ),
                views(res@) == head + lines.take(i as int),
            decreases self.port_list@.len() - i,
        {
            let mut text = self.port_list[i].to_inst_string(i == self.port_list.len() - 1);
            let ghost before = views(res@);
            let ghost added = views(text@);
            res.append(&mut text);
            i += 1;
            assert(views(res@) =~= before + added);
            assert(added =~= seq![lines[i - 1]]);
            assert(views(res@) =~= head + lines.take(i as int));
        }
        assert(lines.take(lines.len() as int) =~= lines);
        let ghost before = views(res@);
        res.push(String::from_str(");"));
        assert(views(res@) =~= before + seq![");"@]);
        res
    }
}

} // verus!
